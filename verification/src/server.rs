//! The control panel: what each request changes and how it is answered.
use crate::config::{optional_text, Config, ConfigView};
use crate::edit::{
    add_game, apply_checkbox_state, can_add, checked_config, remove_game, save_weakens, weakens,
    with_added, with_removed,
};
use crate::form::{field, Form};
use crate::html::{page, page_html, panel_html, render_panel, setup_html, setup_page};
use crate::http::{answer, redirect, redirection, respond, Request, RequestView};
use crate::percent::{is_unreserved, lemma_unreserved_encoded, url_encoded};
use crate::templates::{QUITTING_BODY, UPDATING_BODY};
use crate::text::{same_text, to_chars};
use crate::totp::{
    base32_encoded, code_accepted, generate_secret_b32, is_base32_char, otpauth_url,
    provisioning_url, secret_key, unix_seconds, verify_at,
};
use crate::updater::{current_version, UpdateStatus, UpdateView, VERSION};
use vstd::prelude::*;
use vstd::utf8::*;

verus! {

// ---------------------------------------------------------------------------
// Types
// ---------------------------------------------------------------------------

/// What the panel works on.
#[derive(Debug)]
pub struct ServerState {
    pub cfg: Config,
    /// The program is stopping.
    pub stop: bool,
    /// The secret on the set-up page, until its first code has come.
    pub pending_secret: Option<String>,
    pub update_status: UpdateStatus,
}

/// What a `ServerState` says.
pub struct ServerView {
    pub cfg: ConfigView,
    pub stop: bool,
    pub pending_secret: Option<Seq<char>>,
    pub update_status: UpdateView,
}

impl View for ServerState {
    type V = ServerView;

    open spec fn view(&self) -> ServerView {
        ServerView {
            cfg: self.cfg@,
            stop: self.stop,
            pending_secret: optional_text(self.pending_secret),
            update_status: self.update_status@,
        }
    }
}

/// An answer.
#[derive(Debug)]
pub enum Answer {
    Respond { status: u16, content_type: String, body: String },
    Redirect { location: String },
}

/// What an `Answer` says.
pub enum AnswerView {
    Respond { status: u16, content_type: Seq<char>, body: Seq<char> },
    Redirect { location: Seq<char> },
}

impl View for Answer {
    type V = AnswerView;

    open spec fn view(&self) -> AnswerView {
        match self {
            Answer::Respond { status, content_type, body } => AnswerView::Respond {
                status: *status,
                content_type: content_type@,
                body: body@,
            },
            Answer::Redirect { location } => AnswerView::Redirect { location: location@ },
        }
    }
}

/// What is to be done beside answering.
#[derive(Debug, PartialEq, Eq, Structural)]
pub enum Effect {
    Nothing,
    /// Write down the configuration.
    Save,
    /// Install the newest release.
    Install,
    /// End the program once the answer is out.
    Quit,
}

/// An answer, and what is to be done beside it.
#[derive(Debug)]
pub struct Reply {
    pub answer: Answer,
    pub effect: Effect,
}

/// What a `Reply` says.
pub struct ReplyView {
    pub answer: AnswerView,
    pub effect: Effect,
}

impl View for Reply {
    type V = ReplyView;

    open spec fn view(&self) -> ReplyView {
        ReplyView { answer: self.answer@, effect: self.effect }
    }
}

/// What a request comes to: a reply, or the set-up page with an error where
/// there is one.
#[derive(Debug)]
pub enum Decision {
    Answered { reply: Reply },
    Setup { error: Option<String> },
}

/// What a `Decision` says.
pub enum DecisionView {
    Answered { reply: ReplyView },
    Setup { error: Option<Seq<char>> },
}

impl View for Decision {
    type V = DecisionView;

    open spec fn view(&self) -> DecisionView {
        match self {
            Decision::Answered { reply } => DecisionView::Answered { reply: reply@ },
            Decision::Setup { error } => DecisionView::Setup { error: optional_text(*error) },
        }
    }
}

/// What an optional reply says.
pub open spec fn optional_reply(r: Option<Reply>) -> Option<ReplyView> {
    match r {
        Some(reply) => Some(reply@),
        None => None,
    }
}

/// The panel at the start of the program. No secret is pending.
pub fn start(cfg: Config, stop: bool, update_status: UpdateStatus) -> (r: ServerState)
    ensures
        r.cfg == cfg,
        r.stop == stop,
        r.pending_secret is None,
        r.update_status == update_status,
        r.wf(),
{
    ServerState { cfg, stop, pending_secret: None, update_status }
}

// ---------------------------------------------------------------------------
// Answers
// ---------------------------------------------------------------------------

/// An answer as it goes over the connection.
pub open spec fn answer_text(a: AnswerView) -> Seq<char> {
    match a {
        AnswerView::Respond { status, content_type, body } => answer(status, content_type, body),
        AnswerView::Redirect { location } => redirection(location),
    }
}

impl Answer {
    /// The answer as it goes over the connection.
    pub fn text(&self) -> (r: String)
        ensures
            r@ == answer_text(self@),
    {
        match self {
            Answer::Respond { status, content_type, body } => respond(
                *status,
                content_type.as_str(),
                body.as_str(),
            ),
            Answer::Redirect { location } => redirect(location.as_str()),
        }
    }
}

/// A page of the panel.
pub open spec fn page_answer(html: Seq<char>) -> AnswerView {
    AnswerView::Respond { status: 200, content_type: "text/html"@, body: html }
}

/// A short text with a status.
pub open spec fn plain_answer(status: u16, text: Seq<char>) -> AnswerView {
    AnswerView::Respond { status, content_type: "text/plain"@, body: text }
}

/// A reply that sends the browser elsewhere.
pub open spec fn sent_to(location: Seq<char>, effect: Effect) -> ReplyView {
    ReplyView { answer: AnswerView::Redirect { location }, effect }
}

fn page_of(html: String) -> (r: Answer)
    ensures
        r@ == page_answer(html@),
{
    Answer::Respond { status: 200, content_type: "text/html".to_owned(), body: html }
}

fn plain(status: u16, text: &str) -> (r: Answer)
    ensures
        r@ == plain_answer(status, text@),
{
    Answer::Respond { status, content_type: "text/plain".to_owned(), body: text.to_owned() }
}

fn send_to(location: &str, effect: Effect) -> (r: Reply)
    ensures
        r@ == sent_to(location@, effect),
{
    Reply { answer: Answer::Redirect { location: location.to_owned() }, effect }
}

// ---------------------------------------------------------------------------
// Set-up
// ---------------------------------------------------------------------------

/// The set-up is done.
pub open spec fn is_set_up(cfg: ConfigView) -> bool {
    cfg.setup_complete && cfg.totp_secret_b32 is Some
}

/// The drawing of a QR code as SVG of at least that size, in those two colours;
/// `None` where the text is too long for one.
pub uninterp spec fn qr_svg(
    text: Seq<char>,
    width: u32,
    height: u32,
    dark: Seq<char>,
    light: Seq<char>,
) -> Option<Seq<char>>;

/// Calls `qrcode::QrCode::new` on the bytes of the text and renders the code with
/// `qrcode::render::svg`. Claimed of them: the drawing depends on the arguments
/// alone, and an error means that there is none. Not said is which texts fit. The
/// scores of the masks are added up in sixteen bits, which they can pass in large
/// codes, so longer texts are left out: up to this length the code has at most 69
/// modules a side, for which no modules score as much.
#[verifier::external_body]
fn draw_qr(text: &str, width: u32, height: u32, dark: &str, light: &str) -> (r: Option<String>)
    requires
        encode_utf8(text@).len() <= 213,
        width <= 0x1000_0000,
        height <= 0x1000_0000,
    ensures
        optional_text(r) == qr_svg(text@, width, height, dark@, light@),
{
    let code = qrcode::QrCode::new(text.as_bytes()).ok()?;
    let svg = code
        .render::<qrcode::render::svg::Color>()
        .min_dimensions(width, height)
        .dark_color(qrcode::render::svg::Color(dark))
        .light_color(qrcode::render::svg::Color(light))
        .build();
    Some(svg)
}

/// The name of the program, for the authenticator app.
pub const APP_NAME: &'static str = "BetWall";

/// The longest text that can be handed to be drawn, in bytes.
pub const QR_LIMIT: usize = 213;

/// A secret whose address can be handed to be drawn. Every secret that is made is
/// one.
pub open spec fn can_draw(secret: Seq<char>) -> bool {
    encode_utf8(provisioning_url(secret, APP_NAME@, APP_NAME@)).len() <= QR_LIMIT
}

impl ServerState {
    /// The pending secret can be drawn.
    pub open spec fn wf(&self) -> bool {
        self@.pending_secret matches Some(secret) ==> can_draw(secret)
    }

    /// Whether the pending secret can be drawn.
    pub fn is_wf(&self) -> (r: bool)
        ensures
            r == self.wf(),
    {
        match &self.pending_secret {
            None => true,
            Some(secret) => {
                let url = otpauth_url(secret.as_str(), APP_NAME, APP_NAME);
                url.as_str().as_bytes().len() <= QR_LIMIT
            },
        }
    }
}

/// The QR code with a secret.
pub open spec fn secret_image(secret: Seq<char>) -> Option<Seq<char>> {
    qr_svg(provisioning_url(secret, APP_NAME@, APP_NAME@), 180, 180, "#0f1013"@, "#ffffff"@)
}

/// What showing the set-up page comes to, with a fresh secret at hand or none.
/// A secret that is pending stays; without one the fresh one becomes pending.
/// There is no page without a secret, nor without its QR code.
pub open spec fn setup_shown(
    state: ServerView,
    fresh: Option<Seq<char>>,
    error: Option<Seq<char>>,
) -> (ServerView, Option<ReplyView>) {
    let pending = if state.pending_secret is Some {
        state.pending_secret
    } else {
        fresh
    };
    (
        ServerView { pending_secret: pending, ..state },
        match pending {
            None => None,
            Some(secret) => match secret_image(secret) {
                None => None,
                Some(svg) => Some(
                    ReplyView {
                        answer: page_answer(setup_html(svg, secret, error)),
                        effect: Effect::Nothing,
                    },
                ),
            },
        },
    )
}

/// The QR code with a secret.
pub fn draw_secret(secret: &str) -> (r: Option<String>)
    requires
        can_draw(secret@),
    ensures
        optional_text(r) == secret_image(secret@),
{
    let url = otpauth_url(secret, APP_NAME, APP_NAME);
    draw_qr(url.as_str(), 180, 180, "#0f1013", "#ffffff")
}

/// Shows the set-up page, with a fresh secret at hand or none.
pub fn show_setup(
    state: &mut ServerState,
    fresh: Option<String>,
    error: Option<String>,
) -> (r: Option<Reply>)
    requires
        old(state).wf(),
        old(state).pending_secret is None ==> (fresh matches Some(secret) ==> can_draw(secret@)),
    ensures
        (final(state)@, optional_reply(r)) == setup_shown(
            old(state)@,
            optional_text(fresh),
            optional_text(error),
        ),
        final(state).wf(),
{
    if state.pending_secret.is_none() {
        state.pending_secret = fresh;
    }
    match &state.pending_secret {
        None => None,
        Some(secret) => match draw_secret(secret.as_str()) {
            None => None,
            Some(svg) => {
                let error_text = match &error {
                    Some(e) => Some(e.as_str()),
                    None => None,
                };
                let html = setup_page(svg.as_str(), secret.as_str(), error_text);
                Some(Reply { answer: page_of(html), effect: Effect::Nothing })
            },
        },
    }
}

/// What the first code on the set-up page comes to. The right code makes the
/// pending secret the one that counts.
pub open spec fn setup_verified(
    state: ServerView,
    body: Map<Seq<char>, Seq<char>>,
    now: Option<u64>,
) -> (ServerView, DecisionView) {
    match state.pending_secret {
        None => (state, DecisionView::Setup { error: Some("Session expired, try again."@) }),
        Some(secret) => if code_accepted(secret, field(body, "code"@), now) {
            (
                ServerView {
                    cfg: ConfigView {
                        totp_secret_b32: Some(secret),
                        setup_complete: true,
                        ..state.cfg
                    },
                    pending_secret: None,
                    ..state
                },
                DecisionView::Answered { reply: sent_to("/?msg=setup_ok"@, Effect::Save) },
            )
        } else {
            (state, DecisionView::Setup { error: Some("Code didn't match. Try again."@) })
        },
    }
}

/// Takes the first code from the set-up page.
pub fn handle_setup_verify(state: &mut ServerState, body: &Form, now: Option<u64>) -> (r: Decision)
    ensures
        (final(state)@, r@) == setup_verified(old(state)@, body@, now),
{
    let code = body.text("code");
    let right = match &state.pending_secret {
        None => {
            return Decision::Setup { error: Some("Session expired, try again.".to_owned()) };
        },
        Some(secret) => verify_at(secret.as_str(), code.as_str(), now),
    };
    if !right {
        return Decision::Setup { error: Some("Code didn't match. Try again.".to_owned()) };
    }
    state.cfg.totp_secret_b32 = state.pending_secret.take();
    state.cfg.setup_complete = true;
    Decision::Answered { reply: send_to("/?msg=setup_ok", Effect::Save) }
}

// ---------------------------------------------------------------------------
// Requests that need a code
// ---------------------------------------------------------------------------

/// The code in a form is right for the secret that counts. Without such a secret
/// no code is.
pub open spec fn code_right(
    cfg: ConfigView,
    body: Map<Seq<char>, Seq<char>>,
    now: Option<u64>,
) -> bool {
    match cfg.totp_secret_b32 {
        None => false,
        Some(secret) => code_accepted(secret, field(body, "code"@), now),
    }
}

/// Whether the code in a form is right.
pub fn verify_code(cfg: &Config, body: &Form, now: Option<u64>) -> (r: bool)
    ensures
        r == code_right(cfg@, body@, now),
{
    match &cfg.totp_secret_b32 {
        None => false,
        Some(secret) => verify_at(secret.as_str(), body.text("code").as_str(), now),
    }
}

/// What saving the switches comes to. It takes a code only where it weakens the
/// protection.
pub open spec fn saved(
    state: ServerView,
    body: Map<Seq<char>, Seq<char>>,
    now: Option<u64>,
) -> (ServerView, ReplyView) {
    let proposed = checked_config(state.cfg, body);
    if weakens(state.cfg, proposed) && !code_right(state.cfg, body, now) {
        (state, sent_to("/?msg=bad_code"@, Effect::Nothing))
    } else {
        (ServerView { cfg: proposed, ..state }, sent_to("/?msg=ok"@, Effect::Save))
    }
}

/// Saves the switches.
pub fn handle_save(state: &mut ServerState, body: &Form, now: Option<u64>) -> (r: Reply)
    ensures
        (final(state)@, r@) == saved(old(state)@, body@, now),
{
    let mut proposed = state.cfg.clone();
    apply_checkbox_state(&mut proposed, body);
    if save_weakens(&state.cfg, &proposed) && !verify_code(&state.cfg, body, now) {
        return send_to("/?msg=bad_code", Effect::Nothing);
    }
    state.cfg = proposed;
    send_to("/?msg=ok", Effect::Save)
}

/// What adding a game comes to. It takes no code.
pub open spec fn added(
    state: ServerView,
    body: Map<Seq<char>, Seq<char>>,
) -> (ServerView, ReplyView) {
    if can_add(state.cfg, body) {
        (
            ServerView { cfg: with_added(state.cfg, body), ..state },
            sent_to("/?msg=added"@, Effect::Save),
        )
    } else {
        (state, sent_to("/?msg=bad_input"@, Effect::Nothing))
    }
}

/// Adds a game.
pub fn handle_add(state: &mut ServerState, body: &Form) -> (r: Reply)
    ensures
        (final(state)@, r@) == added(old(state)@, body@),
{
    if add_game(&mut state.cfg, body) {
        send_to("/?msg=added", Effect::Save)
    } else {
        send_to("/?msg=bad_input", Effect::Nothing)
    }
}

/// What removing games comes to. It takes a code.
pub open spec fn removed(
    state: ServerView,
    body: Map<Seq<char>, Seq<char>>,
    now: Option<u64>,
) -> (ServerView, ReplyView) {
    let id = field(body, "remove_id"@);
    if !code_right(state.cfg, body, now) {
        (state, sent_to("/?msg=bad_code"@, Effect::Nothing))
    } else if id.len() == 0 {
        (state, sent_to("/?msg=ok"@, Effect::Nothing))
    } else {
        (
            ServerView { cfg: with_removed(state.cfg, id), ..state },
            sent_to("/?msg=removed"@, Effect::Save),
        )
    }
}

/// Removes the games with the identifier that a form gives.
pub fn handle_remove(state: &mut ServerState, body: &Form, now: Option<u64>) -> (r: Reply)
    ensures
        (final(state)@, r@) == removed(old(state)@, body@, now),
{
    if !verify_code(&state.cfg, body, now) {
        return send_to("/?msg=bad_code", Effect::Nothing);
    }
    let id = body.text("remove_id");
    let v = to_chars(id.as_str());
    if v.len() == 0 {
        return send_to("/?msg=ok", Effect::Nothing);
    }
    remove_game(&mut state.cfg, &id);
    send_to("/?msg=removed", Effect::Save)
}

/// What asking for an update comes to. It takes a code and a later version.
pub open spec fn update_asked(
    state: ServerView,
    body: Map<Seq<char>, Seq<char>>,
    now: Option<u64>,
) -> ReplyView {
    if !code_right(state.cfg, body, now) {
        sent_to("/?msg=bad_code"@, Effect::Nothing)
    } else if state.update_status.latest_version is None {
        sent_to("/?msg=no_update"@, Effect::Nothing)
    } else {
        ReplyView {
            answer: page_answer(page_html("Updating"@, UPDATING_BODY@)),
            effect: Effect::Install,
        }
    }
}

/// Answers a request for an update.
pub fn handle_update(state: &ServerState, body: &Form, now: Option<u64>) -> (r: Reply)
    ensures
        r@ == update_asked(state@, body@, now),
{
    if !verify_code(&state.cfg, body, now) {
        return send_to("/?msg=bad_code", Effect::Nothing);
    }
    if state.update_status.latest_version.is_none() {
        return send_to("/?msg=no_update", Effect::Nothing);
    }
    Reply { answer: page_of(page("Updating", UPDATING_BODY)), effect: Effect::Install }
}

/// What asking to quit comes to. It takes a code.
pub open spec fn quit_asked(
    state: ServerView,
    body: Map<Seq<char>, Seq<char>>,
    now: Option<u64>,
) -> (ServerView, ReplyView) {
    if !code_right(state.cfg, body, now) {
        (state, sent_to("/?msg=bad_code"@, Effect::Nothing))
    } else {
        (
            ServerView { stop: true, ..state },
            ReplyView {
                answer: page_answer(page_html("Quitting"@, QUITTING_BODY@)),
                effect: Effect::Quit,
            },
        )
    }
}

/// Answers a request to quit.
pub fn handle_quit(state: &mut ServerState, body: &Form, now: Option<u64>) -> (r: Reply)
    ensures
        (final(state)@, r@) == quit_asked(old(state)@, body@, now),
{
    if !verify_code(&state.cfg, body, now) {
        return send_to("/?msg=bad_code", Effect::Nothing);
    }
    state.stop = true;
    Reply { answer: page_of(page("Quitting", QUITTING_BODY)), effect: Effect::Quit }
}

// ---------------------------------------------------------------------------
// Routes
// ---------------------------------------------------------------------------

/// A reply as what a request comes to.
pub open spec fn answered(outcome: (ServerView, ReplyView)) -> (ServerView, DecisionView) {
    (outcome.0, DecisionView::Answered { reply: outcome.1 })
}

/// The control panel with the message that the query asks for.
pub open spec fn panel_reply(state: ServerView, query: Map<Seq<char>, Seq<char>>) -> ReplyView {
    ReplyView {
        answer: page_answer(
            panel_html(
                state.cfg,
                state.update_status.latest_version,
                VERSION@,
                if query.contains_key("msg"@) {
                    Some(query["msg"@])
                } else {
                    None
                },
            ),
        ),
        effect: Effect::Nothing,
    }
}

/// What a request comes to at that time.
pub open spec fn decided(
    state: ServerView,
    request: RequestView,
    now: Option<u64>,
) -> (ServerView, DecisionView) {
    let get = request.method == "GET"@;
    let post = request.method == "POST"@;
    if get && request.path == "/"@ {
        if is_set_up(state.cfg) {
            answered((state, panel_reply(state, request.query)))
        } else {
            (state, DecisionView::Setup { error: None })
        }
    } else if post && request.path == "/setup/verify"@ {
        setup_verified(state, request.body, now)
    } else if post && request.path == "/save"@ {
        answered(saved(state, request.body, now))
    } else if post && request.path == "/add"@ {
        answered(added(state, request.body))
    } else if post && request.path == "/remove"@ {
        answered(removed(state, request.body, now))
    } else if post && request.path == "/quit"@ {
        answered(quit_asked(state, request.body, now))
    } else if post && request.path == "/update"@ {
        answered((state, update_asked(state, request.body, now)))
    } else {
        answered(
            (
                state,
                ReplyView { answer: plain_answer(404, "not found"@), effect: Effect::Nothing },
            ),
        )
    }
}

/// What a connection comes to, with the time and a fresh secret at hand. What
/// was no request is answered as such.
pub open spec fn handled(
    state: ServerView,
    request: Option<RequestView>,
    now: Option<u64>,
    fresh: Option<Seq<char>>,
) -> (ServerView, Option<ReplyView>) {
    match request {
        None => (
            state,
            Some(
                ReplyView { answer: plain_answer(400, "bad request"@), effect: Effect::Nothing },
            ),
        ),
        Some(request) => match decided(state, request, now) {
            (after, DecisionView::Answered { reply }) => (after, Some(reply)),
            (after, DecisionView::Setup { error }) => setup_shown(after, fresh, error),
        },
    }
}

/// A secret as they are made: twenty bytes, written down in Base32 with thirty-two
/// characters.
pub open spec fn is_new_secret(secret: Seq<char>) -> bool {
    &&& exists|key: Seq<u8>|
        #![trigger base32_encoded(false, key)]
        key.len() == 20 && secret == base32_encoded(false, key) && secret_key(secret) == Some(key)
    &&& secret.len() == 32
    &&& forall|i: int| 0 <= i < secret.len() ==> is_base32_char(#[trigger] secret[i])
}

/// A new secret can be drawn: its address is short enough.
pub proof fn lemma_new_secret_fits(secret: Seq<char>)
    requires
        is_new_secret(secret),
    ensures
        encode_utf8(provisioning_url(secret, APP_NAME@, APP_NAME@)).len() == 119,
        can_draw(secret),
{
    reveal_strlit("otpauth://totp/");
    reveal_strlit(":");
    reveal_strlit("?secret=");
    reveal_strlit("&issuer=");
    reveal_strlit("&algorithm=SHA1&digits=6&period=30");
    let url = provisioning_url(secret, APP_NAME@, APP_NAME@);
    lemma_app_name_encoded();
    assert(is_ascii_chars("otpauth://totp/"@));
    assert(is_ascii_chars("&algorithm=SHA1&digits=6&period=30"@));
    assert(is_ascii_chars(secret));
    assert(is_ascii_chars(url));
    assert(url.len() == 119);
    is_ascii_chars_encode_utf8(url);
}

proof fn lemma_app_name_encoded()
    ensures
        url_encoded(APP_NAME@) == APP_NAME@,
        APP_NAME@.len() == 7,
        is_ascii_chars(APP_NAME@),
{
    reveal_strlit("BetWall");
    let name = APP_NAME@;
    assert(is_ascii_chars(name));
    is_ascii_chars_encode_utf8(name);
    let bytes = encode_utf8(name);
    assert forall|i: int| 0 <= i < bytes.len() implies is_unreserved(#[trigger] bytes[i]) by {
        assert(bytes[i] == name[i] as u8);
    }
    lemma_unreserved_encoded(bytes);
    assert(url_encoded(name) =~= name);
}

/// What an optional request says.
pub open spec fn optional_request(r: Option<Request>) -> Option<RequestView> {
    match r {
        Some(request) => Some(request@),
        None => None,
    }
}

/// Shows the panel.
fn show_panel(state: &ServerState, query: &Form) -> (r: Reply)
    ensures
        r@ == panel_reply(state@, query@),
{
    let msg = match query.get("msg") {
        Some(m) => Some(m.as_str()),
        None => None,
    };
    let html = render_panel(
        &state.cfg,
        &state.update_status.latest_version,
        current_version(),
        msg,
    );
    Reply { answer: page_of(html), effect: Effect::Nothing }
}

/// Follows a request at that time.
pub fn decide(state: &mut ServerState, request: &Request, now: Option<u64>) -> (r: Decision)
    ensures
        (final(state)@, r@) == decided(old(state)@, request@, now),
{
    let get = same_text(request.method.as_str(), "GET");
    let post = same_text(request.method.as_str(), "POST");
    let path = request.path.as_str();
    let reply = if get && same_text(path, "/") {
        if state.cfg.setup_complete && state.cfg.totp_secret_b32.is_some() {
            show_panel(state, &request.query)
        } else {
            return Decision::Setup { error: None };
        }
    } else if post && same_text(path, "/setup/verify") {
        return handle_setup_verify(state, &request.body, now);
    } else if post && same_text(path, "/save") {
        handle_save(state, &request.body, now)
    } else if post && same_text(path, "/add") {
        handle_add(state, &request.body)
    } else if post && same_text(path, "/remove") {
        handle_remove(state, &request.body, now)
    } else if post && same_text(path, "/quit") {
        handle_quit(state, &request.body, now)
    } else if post && same_text(path, "/update") {
        handle_update(state, &request.body, now)
    } else {
        Reply { answer: plain(404, "not found"), effect: Effect::Nothing }
    };
    Decision::Answered { reply }
}

/// Follows what came over a connection, with the time of the system and, for the
/// set-up page, a new secret from its random bytes. There is no reply where the
/// set-up page has no secret or no QR code to show.
pub fn handle(state: &mut ServerState, request: &Option<Request>) -> (r: Option<Reply>)
    requires
        old(state).wf(),
    ensures
        final(state).wf(),
        exists|now: Option<u64>, fresh: Option<Seq<char>>|
            #![trigger handled(old(state)@, optional_request(*request), now, fresh)]
            (fresh matches Some(secret) ==> is_new_secret(secret)) && handled(
                old(state)@,
                optional_request(*request),
                now,
                fresh,
            ) == (final(state)@, optional_reply(r)),
{
    let ghost before = state@;
    match request {
        None => {
            let reply = Reply { answer: plain(400, "bad request"), effect: Effect::Nothing };
            assert(handled(before, None, None, None) == (state@, Some(reply@)));
            Some(reply)
        },
        Some(request) => {
            let now = unix_seconds();
            match decide(state, request, now) {
                Decision::Answered { reply } => {
                    assert(handled(before, Some(request@), now, None) == (state@, Some(reply@)));
                    Some(reply)
                },
                Decision::Setup { error } => {
                    let fresh = if state.pending_secret.is_none() {
                        generate_secret_b32()
                    } else {
                        None
                    };
                    let ghost secret = optional_text(fresh);
                    proof {
                        if let Some(s) = secret {
                            lemma_new_secret_fits(s);
                        }
                    }
                    let r = show_setup(state, fresh, error);
                    assert(handled(before, Some(request@), now, secret) == (
                        state@,
                        optional_reply(r),
                    ));
                    r
                },
            }
        },
    }
}

} // verus!
