//! What looking for a new version and installing it come to.
use crate::text_laws::{copies, lemma_leading_copies_go};
use crate::updater::{
    after_failure, after_look, applied, checker_next, later_version, no_update, release_version,
    reported_version, update_to, ApplyAction, ApplyEvent, CheckerAction, UpdateView, BIN_NAME,
    CHECK_INTERVAL, INITIAL_DELAY, OWNER, REPO, SLEEP_STEP, VERSION,
};
use vstd::prelude::*;

verus! {

/// A release is read as the version in its name: as it stands, or without the `v`s
/// before it. Nothing else is taken off.
pub proof fn lemma_release_named_after_version(w: Seq<char>, n: nat)
    requires
        w.len() > 0 ==> w[0] != 'v',
    ensures
        release_version(w) == w,
        release_version("v"@ + w) == w,
        release_version(copies("v"@, n) + w) == w,
{
    reveal_strlit("v");
    let v = seq!['v'];
    assert("v"@ =~= v);
    if v.is_prefix_of(w) {
        assert(w.subrange(0, 1)[0] == 'v');
    }
    lemma_leading_copies_go(v, n, w);
    lemma_leading_copies_go(v, 1, w);
    assert(copies(v, 0) =~= Seq::empty());
    assert(copies(v, 1) =~= v + copies(v, 0));
    assert(copies(v, 1) =~= v);
}

/// A look that finds a release of a later version, named after it with a `v` or
/// without, leaves that version to be offered and no failure. A version that is
/// not later, or is none, is not offered, and neither is anything where there is
/// no release.
pub proof fn lemma_later_release_is_offered(w: Seq<char>, status: UpdateView)
    requires
        w.len() > 0 ==> w[0] != 'v',
    ensures
        ({
            let named = after_look(update_to(Some("v"@ + w)), status);
            let bare = after_look(update_to(Some(w)), status);
            let none = after_look(update_to(None), status);
            &&& later_version(VERSION@, w) == Some(true) ==> named.latest_version == Some(w)
                && bare.latest_version == Some(w)
            &&& later_version(VERSION@, w) != Some(true) ==> named.latest_version is None
                && bare.latest_version is None
            &&& none.latest_version is None
            &&& named.last_error is None && bare.last_error is None && none.last_error is None
            &&& named.applying == status.applying && bare.applying == status.applying
                && none.applying == status.applying
        }),
{
    lemma_release_named_after_version(w, 1);
}

/// A version is reported, as it is, if it compares as later, and not otherwise.
pub proof fn lemma_only_later_is_reported(version: Seq<char>, later: Option<bool>)
    ensures
        reported_version(version, Some(true)) == Some(version),
        later != Some(true) ==> reported_version(version, later) is None,
{
}

/// A failure is noted. What was offered before it still is.
pub proof fn lemma_failure_is_noted(error: Seq<char>, status: UpdateView)
    ensures
        after_failure(error, status).last_error == Some(error),
        after_failure(error, status).latest_version == status.latest_version,
        after_failure(error, status).applying == status.applying,
{
}

/// Releases are those of this program, which is version 0.1.0.
pub proof fn lemma_releases_of_this_program()
    ensures
        OWNER@ == "onlytk"@,
        REPO@ == "betwall"@,
        BIN_NAME@ == "betwall"@,
        VERSION@ == "0.1.0"@,
{
}

/// At first nothing is offered, nothing has failed and nothing is being installed.
pub proof fn lemma_nothing_known_at_first()
    ensures
        no_update().latest_version is None,
        no_update().last_error is None,
        !no_update().applying,
{
}

/// The first look comes after half a minute and each further one after six hours.
/// Sleep is cut into pieces of five seconds, the last one shorter where less is
/// left, and nothing but the end comes once the program is stopping.
pub proof fn lemma_looks_are_timed(left: int)
    requires
        left >= 0,
    ensures
        INITIAL_DELAY == 30,
        CHECK_INTERVAL == 6 * 60 * 60,
        SLEEP_STEP == 5,
        checker_next(left, true) == (left, CheckerAction::Exit),
        checker_next(0, false) == (21600int, CheckerAction::Look),
        0 < left <= 5 ==> checker_next(left, false) == (0int, CheckerAction::Sleep),
        left > 5 ==> checker_next(left, false) == (left - 5, CheckerAction::Sleep),
{
}

/// Installing begins by noting that it is under way. A success leaves nothing to
/// offer and restarts the program. After a failure the program stays, the failure
/// is noted and the version is offered still. Either way nothing is under way
/// then.
pub proof fn lemma_installing(status: UpdateView, e: String)
    ensures
        ({
            let (started, first) = applied(status, ApplyEvent::Started);
            let (done, second) = applied(status, ApplyEvent::Finished { result: Ok(()) });
            let (failed, third) = applied(status, ApplyEvent::Finished { result: Err(e) });
            &&& first == ApplyAction::Install
            &&& started.applying
            &&& started.latest_version == status.latest_version
            &&& started.last_error == status.last_error
            &&& second == ApplyAction::Restart
            &&& !done.applying && done.latest_version is None && done.last_error is None
            &&& third == ApplyAction::Stay
            &&& !failed.applying && failed.last_error == Some(e@)
            &&& failed.latest_version == status.latest_version
        }),
{
}

} // verus!
