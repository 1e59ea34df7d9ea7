//! New versions of the program: when to look for one, and what came of it.
use crate::config::optional_text;
use crate::text::{strip_leading_chars, to_chars, to_text, without_leading};
use vstd::prelude::*;

verus! {

/// Who publishes the releases.
pub const OWNER: &'static str = "onlytk";

/// The repository with the releases.
pub const REPO: &'static str = "betwall";

/// The name of the program in a release.
pub const BIN_NAME: &'static str = "betwall";

/// The version of this program.
pub const VERSION: &'static str = "0.1.0";

/// Seconds between two looks.
pub const CHECK_INTERVAL: u64 = 21600;

/// Seconds until the first look.
pub const INITIAL_DELAY: u64 = 30;

/// Seconds that are slept at once.
pub const SLEEP_STEP: u64 = 5;

/// The version of this program.
pub fn current_version() -> (r: &'static str)
    ensures
        r@ == VERSION@,
{
    VERSION
}

// ---------------------------------------------------------------------------
// What is known
// ---------------------------------------------------------------------------

/// What is known of newer versions.
#[derive(Debug)]
pub struct UpdateStatus {
    pub latest_version: Option<String>,
    pub last_error: Option<String>,
    pub applying: bool,
}

/// What an `UpdateStatus` says.
pub struct UpdateView {
    pub latest_version: Option<Seq<char>>,
    pub last_error: Option<Seq<char>>,
    pub applying: bool,
}

impl View for UpdateStatus {
    type V = UpdateView;

    open spec fn view(&self) -> UpdateView {
        UpdateView {
            latest_version: optional_text(self.latest_version),
            last_error: optional_text(self.last_error),
            applying: self.applying,
        }
    }
}

/// Nothing is known yet.
pub open spec fn no_update() -> UpdateView {
    UpdateView { latest_version: None, last_error: None, applying: false }
}

/// A copy of an optional text.
pub fn clone_text(s: &Option<String>) -> (r: Option<String>)
    ensures
        optional_text(r) == optional_text(*s),
{
    match s {
        Some(t) => Some(t.clone()),
        None => None,
    }
}

impl Clone for UpdateStatus {
    fn clone(&self) -> (r: Self)
        ensures
            r@ == self@,
    {
        UpdateStatus {
            latest_version: clone_text(&self.latest_version),
            last_error: clone_text(&self.last_error),
            applying: self.applying,
        }
    }
}

impl Default for UpdateStatus {
    fn default() -> (r: Self)
        ensures
            r@ == no_update(),
    {
        UpdateStatus { latest_version: None, last_error: None, applying: false }
    }
}

/// What is known at the start of the program.
pub fn shared() -> (r: UpdateStatus)
    ensures
        r@ == no_update(),
{
    UpdateStatus::default()
}

// ---------------------------------------------------------------------------
// Which releases count
// ---------------------------------------------------------------------------

/// Whether `other` is a later version than `current`, by the rules of semantic
/// versions; `None` where one of them is not such a version.
pub uninterp spec fn later_version(current: Seq<char>, other: Seq<char>) -> Option<bool>;

/// Calls `self_update::version::bump_is_greater`, which parses both versions and
/// compares them. Claimed of it: the result depends on the two texts alone, is
/// an error where one of them does not parse, and no version is later than
/// itself.
#[verifier::external_body]
fn is_later_version(current: &str, other: &str) -> (r: Option<bool>)
    ensures
        r == later_version(current@, other@),
        current@ == other@ ==> r != Some(true),
{
    self_update::version::bump_is_greater(current, other).ok()
}

/// The version that a release is named after: its name without the `v`s at its start.
pub open spec fn release_version(name: Seq<char>) -> Seq<char> {
    without_leading(name, seq!['v'])
}

/// The version to report, given how it compares with this one: only a later one.
pub open spec fn reported_version(version: Seq<char>, later: Option<bool>) -> Option<Seq<char>> {
    if later == Some(true) {
        Some(version)
    } else {
        None
    }
}

/// The version to report when the newest release has that name, if there is one.
pub open spec fn update_to(first: Option<Seq<char>>) -> Option<Seq<char>> {
    match first {
        None => None,
        Some(name) => reported_version(
            release_version(name),
            later_version(VERSION@, release_version(name)),
        ),
    }
}

/// The version that a release is named after.
pub fn version_of_release(name: &str) -> (r: String)
    ensures
        r@ == release_version(name@),
{
    let v = to_chars(name);
    let mark: Vec<char> = vec!['v'];
    assert(mark@ =~= seq!['v']);
    to_text(strip_leading_chars(&v, &mark))
}

/// The version to report, given how it compares with this one.
pub fn report_if_later(version: String, later: Option<bool>) -> (r: Option<String>)
    ensures
        optional_text(r) == reported_version(version@, later),
{
    match later {
        Some(true) => Some(version),
        _ => None,
    }
}

/// The version to report when the newest release has that name. It is never the
/// version of this program.
pub fn latest_update(first: &Option<String>) -> (r: Option<String>)
    ensures
        optional_text(r) == update_to(optional_text(*first)),
        optional_text(r) != Some(VERSION@),
{
    match first {
        None => None,
        Some(name) => {
            let version = version_of_release(name.as_str());
            let later = is_later_version(VERSION, version.as_str());
            report_if_later(version, later)
        },
    }
}

// ---------------------------------------------------------------------------
// Looking
// ---------------------------------------------------------------------------

/// What is known after a look that found that version, or none.
pub open spec fn after_look(latest: Option<Seq<char>>, status: UpdateView) -> UpdateView {
    UpdateView { latest_version: latest, last_error: None, ..status }
}

/// What is known after something failed.
pub open spec fn after_failure(error: Seq<char>, status: UpdateView) -> UpdateView {
    UpdateView { last_error: Some(error), ..status }
}

/// Looks on request. `fetched` is the name of the newest release, if there is
/// any, or what kept the list of releases from coming. Returns whether there is
/// a later version. What is known stays as it is where the list did not come.
pub fn check_now(status: &mut UpdateStatus, fetched: Result<Option<String>, String>) -> (r: Result<
    bool,
    String,
>)
    ensures
        match fetched {
            Ok(first) => {
                &&& r == Ok::<bool, String>(update_to(optional_text(first)) is Some)
                &&& final(status)@ == after_look(update_to(optional_text(first)), old(status)@)
            },
            Err(e) => {
                &&& r == Err::<bool, String>(e)
                &&& *final(status) == *old(status)
            },
        },
{
    match fetched {
        Ok(first) => {
            let latest = latest_update(&first);
            let has_update = latest.is_some();
            status.latest_version = latest;
            status.last_error = None;
            Ok(has_update)
        },
        Err(e) => Err(e),
    }
}

/// Notes down a look that nobody asked for. Here a failure is noted too.
pub fn record_check(status: &mut UpdateStatus, fetched: Result<Option<String>, String>)
    ensures
        final(status)@ == match fetched {
            Ok(first) => after_look(update_to(optional_text(first)), old(status)@),
            Err(e) => after_failure(e@, old(status)@),
        },
{
    match check_now(status, fetched) {
        Ok(_) => {},
        Err(e) => {
            status.last_error = Some(e);
        },
    }
}

/// What the one who looks does next.
#[derive(Debug, PartialEq, Eq, Structural)]
pub enum CheckerAction {
    /// Ends.
    Exit,
    /// Sleeps for `SLEEP_STEP` seconds.
    Sleep,
    /// Looks for releases and notes down what came.
    Look,
}

/// The one who looks, with the seconds that are left until the next look.
#[derive(Debug)]
pub struct Checker {
    pub left: u64,
}

/// What is left after a sleep.
pub open spec fn left_after_sleep(left: int) -> int {
    if left <= SLEEP_STEP {
        0
    } else {
        left - SLEEP_STEP
    }
}

/// What is left after what is done next, and what that is. Nothing but the end
/// comes once the program is stopping.
pub open spec fn checker_next(left: int, stopping: bool) -> (int, CheckerAction) {
    if stopping {
        (left, CheckerAction::Exit)
    } else if left > 0 {
        (left_after_sleep(left), CheckerAction::Sleep)
    } else {
        (CHECK_INTERVAL as int, CheckerAction::Look)
    }
}

impl Checker {
    /// The one who looks, at the start of the program.
    pub fn new() -> (r: Checker)
        ensures
            r.left == INITIAL_DELAY,
    {
        Checker { left: INITIAL_DELAY }
    }

    /// What to do next.
    pub fn next(&mut self, stopping: bool) -> (r: CheckerAction)
        ensures
            (final(self).left as int, r) == checker_next(old(self).left as int, stopping),
    {
        if stopping {
            CheckerAction::Exit
        } else if self.left > 0 {
            self.left = if self.left <= SLEEP_STEP {
                0
            } else {
                self.left - SLEEP_STEP
            };
            CheckerAction::Sleep
        } else {
            self.left = CHECK_INTERVAL;
            CheckerAction::Look
        }
    }
}

/// What is left after so many actions of a program that goes on.
pub open spec fn left_after(left: int, steps: nat) -> int
    decreases steps,
{
    if steps == 0 {
        left
    } else {
        checker_next(left_after(left, (steps - 1) as nat), false).0
    }
}

/// As long as the program goes on, the one who looks sleeps exactly until the
/// time is up, in whole steps, and then looks.
pub proof fn lemma_checker_sleeps_then_looks(left: int, steps: nat)
    requires
        left >= 0,
    ensures
        SLEEP_STEP * steps < left ==> checker_next(left_after(left, steps), false).1
            == CheckerAction::Sleep,
        left <= SLEEP_STEP * steps < left + SLEEP_STEP ==> checker_next(
            left_after(left, steps),
            false,
        ) == (CHECK_INTERVAL as int, CheckerAction::Look),
{
    if SLEEP_STEP * steps < left + SLEEP_STEP {
        lemma_left_after(left, steps);
    }
}

proof fn lemma_left_after(left: int, steps: nat)
    requires
        left >= 0,
        SLEEP_STEP * steps < left + SLEEP_STEP,
    ensures
        left_after(left, steps) == if left <= SLEEP_STEP * steps {
            0
        } else {
            left - SLEEP_STEP * steps
        },
    decreases steps,
{
    if steps > 0 {
        lemma_left_after(left, (steps - 1) as nat);
    }
}

// ---------------------------------------------------------------------------
// Installing
// ---------------------------------------------------------------------------

/// What happens while a new version is installed.
pub enum ApplyEvent {
    /// It is about to be installed.
    Started,
    /// Installing it ended so.
    Finished { result: Result<(), String> },
}

/// What to do about it.
#[derive(Debug, PartialEq, Eq, Structural)]
pub enum ApplyAction {
    /// Install the newest release.
    Install,
    /// Start the new program and end this one.
    Restart,
    /// Nothing.
    Stay,
}

/// What is known afterwards, and what to do. After a success nothing is left to
/// install and the program restarts; after a failure it goes on, the failure is
/// noted and the new version is still offered.
pub open spec fn applied(status: UpdateView, event: ApplyEvent) -> (UpdateView, ApplyAction) {
    match event {
        ApplyEvent::Started => (
            UpdateView { applying: true, ..status },
            ApplyAction::Install,
        ),
        ApplyEvent::Finished { result } => match result {
            Ok(_) => (
                UpdateView { latest_version: None, last_error: None, applying: false },
                ApplyAction::Restart,
            ),
            Err(e) => (
                UpdateView { applying: false, last_error: Some(e@), ..status },
                ApplyAction::Stay,
            ),
        },
    }
}

/// Notes down what happens while a new version is installed, and says what to do
/// about it.
pub fn apply(status: &mut UpdateStatus, event: ApplyEvent) -> (r: ApplyAction)
    ensures
        (final(status)@, r) == applied(old(status)@, event),
{
    match event {
        ApplyEvent::Started => {
            status.applying = true;
            ApplyAction::Install
        },
        ApplyEvent::Finished { result } => {
            status.applying = false;
            match result {
                Ok(_) => {
                    status.last_error = None;
                    status.latest_version = None;
                    ApplyAction::Restart
                },
                Err(e) => {
                    status.last_error = Some(e);
                    ApplyAction::Stay
                },
            }
        },
    }
}

} // verus!
