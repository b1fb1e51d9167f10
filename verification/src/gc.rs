//! Collecting what jobs leave behind.
//!
//! A job discards its own checkout as it finishes, so what is found here is
//! whatever a job that died mid-round orphaned. The policy: a job's worktrees
//! are wanted exactly as long as the job is, and `--older-than` exists only
//! for the leftovers of jobs whose state was never cleaned up.
//!
//! Deciding and doing are separate: [`collectable`] reports what could go and
//! why, which is what `--dry-run` prints, and only then is anything deleted;
//! [`remove`] accounts for what went.

use crate::filepath::join_path;
use crate::git::{prune_worktrees, GitCall};
use crate::number::{decimal, decimal_of, number_in, number_of, number_up_to};
use crate::paths::{id_named, job_dir, jobs_root, jobs_root_of, opt_text};
use crate::text::{opt_view, texts, views};
use crate::time::{humantime_format, humantime_formatted, Span, NANOS_PER_SEC};
use vstd::prelude::*;

verus! {

/// A job's worktree directory that nothing needs any more.
#[derive(Debug, Clone, PartialEq, Eq)]
pub struct StaleWorktree {
    pub path: String,
    /// Why it is collectable, in the words `gc` prints.
    pub because: String,
}

pub struct StaleWorktreeView {
    pub path: Seq<char>,
    pub because: Seq<char>,
}

impl View for StaleWorktree {
    type V = StaleWorktreeView;

    open spec fn view(&self) -> StaleWorktreeView {
        StaleWorktreeView { path: self.path@, because: self.because@ }
    }
}

/// One repository's leftovers, paired with the repository itself so its
/// worktree list can be pruned after the directories go.
#[derive(Debug, Clone, PartialEq, Eq)]
pub struct RepositoryLeftovers {
    /// `None` when the marker naming the repository is missing, which by
    /// itself makes everything under it collectable.
    pub repo: Option<String>,
    pub stale: Vec<StaleWorktree>,
}

/// What the filesystem says that decides whether a job's worktree directory is
/// wanted.
#[derive(Debug, Clone, Copy, PartialEq, Eq)]
pub struct Standing {
    /// Whether its repository is still there.
    pub repo_exists: bool,
    /// Whether its job still has a [`state_dir`].
    pub has_state: bool,
    /// How long the directory has not been touched, when that can be told.
    pub idle: Option<Span>,
}

/// Where the state of a job lives.
pub fn state_dir(repo: &str, job_id: u64) -> (dir: String)
    ensures
        dir@ == job_dir(jobs_root_of(repo@), job_id as nat),
{
    join_path(jobs_root(repo).as_str(), decimal_of(job_id).as_str())
}

/// Where the state of the job that a worktree directory is named for lives,
/// when the directory is named for one and its repository is known.
pub fn state_to_look_for(repo: Option<&str>, name: &str) -> (dir: Option<String>)
    ensures
        opt_view(dir) == (match (opt_text(repo), id_named(name@)) {
            (Some(repo), Some(job_id)) => Some(job_dir(jobs_root_of(repo), job_id)),
            _ => None,
        }),
{
    match repo {
        Some(repo) => match number_of(name, u64::MAX) {
            Some(job_id) => Some(state_dir(repo, job_id)),
            None => None,
        },
        None => None,
    }
}

/// Whether a directory has been idle for longer than the user keeps such
/// directories. Age only collects when the user asked for it.
pub open spec fn is_too_old(idle: Option<Span>, keep_for: Option<Span>) -> bool {
    match (idle, keep_for) {
        (Some(idle), Some(keep_for)) => idle@ > keep_for@,
        _ => false,
    }
}

/// Why a job's worktree directory is collectable, or `None` while the job it
/// belongs to still exists. `idle_text` is how long it has been idle, in
/// words.
pub open spec fn collecting_reason(
    repo: Option<Seq<char>>,
    job_id: nat,
    standing: Standing,
    keep_for: Option<Span>,
    idle_text: Seq<char>,
) -> Option<Seq<char>> {
    match repo {
        None => Some("its repository is unknown"@),
        Some(repo) => if !standing.repo_exists {
            Some(repo + " no longer exists"@)
        } else if !standing.has_state {
            Some("job "@ + decimal(job_id) + " has no state directory"@)
        } else if is_too_old(standing.idle, keep_for) {
            Some("untouched for "@ + idle_text)
        } else {
            None
        },
    }
}

/// How long a directory has been idle, in words: whole seconds, as humantime
/// writes them.
pub open spec fn idle_words(idle: Option<Span>) -> Seq<char> {
    match idle {
        Some(idle) => humantime_formatted((idle@ / NANOS_PER_SEC as nat) as u64),
        None => Seq::empty(),
    }
}

/// Why a job's worktree directory is collectable, or `None` while the job it
/// belongs to still exists.
pub fn reason_to_collect(
    repo: Option<&str>,
    job_id: u64,
    standing: &Standing,
    keep_for: &Option<Span>,
) -> (reason: Option<String>)
    ensures
        opt_view(reason) == collecting_reason(
            opt_text(repo),
            job_id as nat,
            *standing,
            *keep_for,
            idle_words(standing.idle),
        ),
{
    let idle_text = match &standing.idle {
        Some(idle) => humantime_format(idle.as_secs()),
        None => String::new(),
    };
    assert(idle_text@ =~= idle_words(standing.idle));
    reason_given(repo, job_id, standing, keep_for, idle_text.as_str())
}

/// [`reason_to_collect`], told how long the directory has been idle in words.
pub fn reason_given(
    repo: Option<&str>,
    job_id: u64,
    standing: &Standing,
    keep_for: &Option<Span>,
    idle_text: &str,
) -> (reason: Option<String>)
    ensures
        opt_view(reason) == collecting_reason(
            opt_text(repo),
            job_id as nat,
            *standing,
            *keep_for,
            idle_text@,
        ),
{
    let repo = match repo {
        None => {
            return Some(String::from_str("its repository is unknown"));
        },
        Some(repo) => repo,
    };
    if !standing.repo_exists {
        let mut reason = String::from_str(repo);
        reason.append(" no longer exists");
        return Some(reason);
    }
    if !standing.has_state {
        let mut reason = String::from_str("job ");
        reason.append(decimal_of(job_id).as_str());
        reason.append(" has no state directory");
        return Some(reason);
    }
    let too_old = match (&standing.idle, keep_for) {
        (Some(idle), Some(keep_for)) => idle.longer_than(keep_for),
        _ => false,
    };
    if too_old {
        let mut reason = String::from_str("untouched for ");
        reason.append(idle_text);
        Some(reason)
    } else {
        None
    }
}

/// A worktree whose job still exists is still wanted however old it is, unless
/// the user asked otherwise.
pub proof fn law_live_jobs_keep_their_worktrees(
    repo: Seq<char>,
    job_id: nat,
    standing: Standing,
    idle_text: Seq<char>,
)
    requires
        standing.repo_exists,
        standing.has_state,
    ensures
        collecting_reason(Some(repo), job_id, standing, None, idle_text) is None,
{
}

/// A worktree whose job is gone is collectable however young it is.
pub proof fn law_orphaned_worktrees_are_collectable(
    repo: Option<Seq<char>>,
    job_id: nat,
    standing: Standing,
    keep_for: Option<Span>,
    idle_text: Seq<char>,
)
    requires
        repo is None || !standing.repo_exists || !standing.has_state,
    ensures
        collecting_reason(repo, job_id, standing, keep_for, idle_text) is Some,
{
}

/// One directory below a repository's worktrees, as it was found.
#[derive(Debug, Clone, PartialEq, Eq)]
pub struct FoundDirectory {
    /// Its name; a job's is the job's id.
    pub name: String,
    pub path: String,
    pub standing: Standing,
}

/// One repository's worktrees, as they were found.
#[derive(Debug, Clone, PartialEq, Eq)]
pub struct FoundRepository {
    /// The repository its marker names.
    pub repo: Option<String>,
    pub directories: Vec<FoundDirectory>,
}

/// What is stale among the directories found. Those not named by a job id are
/// none of assembly-line's.
pub open spec fn stale_among(
    repo: Option<Seq<char>>,
    directories: Seq<FoundDirectory>,
    keep_for: Option<Span>,
) -> Seq<StaleWorktreeView>
    decreases directories.len(),
{
    if directories.len() == 0 {
        Seq::empty()
    } else {
        let before = stale_among(repo, directories.drop_last(), keep_for);
        let last = directories.last();
        match number_up_to(last.name@, u64::MAX as nat) {
            None => before,
            Some(job_id) => match collecting_reason(
                repo,
                job_id,
                last.standing,
                keep_for,
                idle_words(last.standing.idle),
            ) {
                None => before,
                Some(because) => before.push(StaleWorktreeView { path: last.path@, because }),
            },
        }
    }
}

fn stale_in(found: &FoundRepository, keep_for: &Option<Span>) -> (stale: Vec<StaleWorktree>)
    ensures
        views(stale@) == stale_among(opt_view(found.repo), found.directories@, *keep_for),
{
    let mut stale: Vec<StaleWorktree> = Vec::new();
    let mut at: usize = 0;
    let ghost all = found.directories@;
    assert(views(stale@) =~= stale_among(opt_view(found.repo), all.take(0), *keep_for));
    while at < found.directories.len()
        invariant
            at <= found.directories.len(),
            all == found.directories@,
            views(stale@) == stale_among(opt_view(found.repo), all.take(at as int), *keep_for),
        decreases found.directories.len() - at,
    {
        let ghost before = stale@;
        let entry = &found.directories[at];
        assert(all.take(at + 1).drop_last() =~= all.take(at as int));
        assert(all.take(at + 1).last() == *entry);
        let repo = match &found.repo {
            Some(repo) => Some(repo.as_str()),
            None => None,
        };
        assert(opt_text(repo) == opt_view(found.repo));
        match number_of(entry.name.as_str(), u64::MAX) {
            None => {},
            Some(job_id) => match reason_to_collect(repo, job_id, &entry.standing, keep_for) {
                None => {},
                Some(because) => {
                    let item = StaleWorktree { path: entry.path.clone(), because };
                    stale.push(item);
                    assert(views(stale@) =~= views(before).push(item@));
                },
            },
        }
        at = at + 1;
    }
    assert(all.take(at as int) =~= all);
    stale
}

/// Whether a directory is a job's and not wanted any more: its repository is
/// not known or not there, or its job has no state, or the user gave a limit
/// and it has been idle for longer.
pub open spec fn is_unwanted(
    repo: Option<Seq<char>>,
    found: FoundDirectory,
    keep_for: Option<Span>,
) -> bool {
    &&& number_in(found.name@) matches Some(job_id) && job_id <= u64::MAX
    &&& {
        ||| repo is None
        ||| !found.standing.repo_exists
        ||| !found.standing.has_state
        ||| keep_for matches Some(limit) && found.standing.idle matches Some(idle) && idle@
            > limit@
    }
}

/// What is stale is exactly the directories that are named by a job id and are
/// not wanted any more, in the order they were found: one entry for each, with
/// its own path.
pub proof fn law_exactly_the_unwanted_is_stale(
    repo: Option<Seq<char>>,
    directories: Seq<FoundDirectory>,
    keep_for: Option<Span>,
)
    ensures
        stale_among(repo, directories, keep_for).map_values(|stale: StaleWorktreeView| stale.path)
            == directories.filter(
            |found: FoundDirectory| is_unwanted(repo, found, keep_for),
        ).map_values(|found: FoundDirectory| found.path@),
    decreases directories.len(),
{
    reveal(Seq::filter);
    let unwanted = |found: FoundDirectory| is_unwanted(repo, found, keep_for);
    let path = |stale: StaleWorktreeView| stale.path;
    let found_path = |found: FoundDirectory| found.path@;
    let stale = stale_among(repo, directories, keep_for);
    if directories.len() > 0 {
        let rest = directories.drop_last();
        let last = directories.last();
        law_exactly_the_unwanted_is_stale(repo, rest, keep_for);
        let before = stale_among(repo, rest, keep_for);
        let kept = rest.filter(unwanted);
        assert(before.map_values(path) == kept.map_values(found_path));
        if is_unwanted(repo, last, keep_for) {
            assert(directories.filter(unwanted) == kept.push(last));
            assert(stale.len() == before.len() + 1 && stale.drop_last() =~= before);
            assert(stale.last().path == last.path@);
            assert(stale.map_values(path) =~= before.map_values(path).push(last.path@));
            assert(kept.push(last).map_values(found_path) =~= kept.map_values(found_path).push(
                last.path@,
            ));
        } else {
            assert(directories.filter(unwanted) == kept);
            assert(stale == before);
        }
    } else {
        assert(stale.map_values(path) =~= directories.filter(unwanted).map_values(found_path));
    }
}

/// `--older-than` only adds to what is collected: whatever is stale without it
/// is stale with any limit, for the same reason and in the same order among the
/// rest; and a longer limit never collects more.
pub proof fn law_a_limit_only_adds_to_what_is_collected(
    repo: Option<Seq<char>>,
    directories: Seq<FoundDirectory>,
    keep_for: Option<Span>,
    longer: Option<Span>,
    stale: StaleWorktreeView,
)
    requires
        longer is None || (keep_for is Some && longer->0@ >= keep_for->0@),
        stale_among(repo, directories, longer).contains(stale),
    ensures
        stale_among(repo, directories, keep_for).contains(stale),
    decreases directories.len(),
{
    let wide = stale_among(repo, directories, keep_for);
    let narrow = stale_among(repo, directories, longer);
    let rest = directories.drop_last();
    let wide_before = stale_among(repo, rest, keep_for);
    let narrow_before = stale_among(repo, rest, longer);
    let at = narrow.index_of(stale);
    if at < narrow_before.len() {
        assert(narrow_before[at] == stale);
        law_a_limit_only_adds_to_what_is_collected(repo, rest, keep_for, longer, stale);
        assert(wide[wide_before.index_of(stale)] == stale);
    } else {
        assert(wide[wide_before.len() as int] == stale);
    }
}

/// Why a directory is stale names what it is about: the repository that is
/// gone, the job that has no state, or how long the directory has been idle.
pub proof fn law_the_reason_names_what_it_is_about(
    repo: Seq<char>,
    job_id: nat,
    standing: Standing,
    keep_for: Option<Span>,
    idle_text: Seq<char>,
)
    ensures
        ({
            let reason = collecting_reason(Some(repo), job_id, standing, keep_for, idle_text);
            &&& !standing.repo_exists ==> (reason matches Some(why) && repo.is_prefix_of(why))
            &&& standing.repo_exists && !standing.has_state ==> (reason matches Some(why) && exists|
                before: Seq<char>,
                after: Seq<char>,
            | why == #[trigger] (before + decimal(job_id) + after))
            &&& standing.repo_exists && standing.has_state ==> (reason matches Some(why)
                ==> idle_text.is_suffix_of(why))
        }),
{
    let reason = collecting_reason(Some(repo), job_id, standing, keep_for, idle_text);
    if standing.repo_exists && !standing.has_state {
        assert(reason->0 == "job "@ + decimal(job_id) + " has no state directory"@);
    }
    if let Some(why) = reason {
        assert(repo.is_prefix_of(repo + " no longer exists"@)) by {
            assert((repo + " no longer exists"@).take(repo.len() as int) =~= repo);
        }
        let told = "untouched for "@ + idle_text;
        assert(told.skip(told.len() - idle_text.len()) =~= idle_text);
    }
}

/// Every repository is looked through for itself: how many directories are
/// stale in all is the sum over the repositories, whatever their order.
pub proof fn law_the_count_is_the_sum(
    first: Seq<RepositoryLeftovers>,
    then: Seq<RepositoryLeftovers>,
    one: RepositoryLeftovers,
)
    ensures
        stale_count(first + then) == stale_count(first) + stale_count(then),
        stale_count(seq![one]) == one.stale@.len(),
        stale_count(Seq::empty()) == 0,
    decreases then.len(),
{
    if then.len() == 0 {
        assert(first + then =~= first);
    } else {
        law_the_count_is_the_sum(first, then.drop_last(), one);
        assert((first + then).drop_last() =~= first + then.drop_last());
        assert((first + then).last() == then.last());
    }
    assert(seq![one].drop_last() =~= Seq::<RepositoryLeftovers>::empty());
    assert(stale_count(seq![one].drop_last()) == 0);
    assert(seq![one].last() == one);
}

/// Each directory that would not go is warned of once, by its path and with
/// the reason, and none that went is.
pub proof fn law_each_refusal_is_warned_of(
    stale: Seq<StaleWorktree>,
    failures: Seq<Option<String>>,
)
    requires
        failures.len() == stale.len(),
    ensures
        removal_warnings(stale, failures).len() == failures.filter(
            |failure: Option<String>| failure is Some,
        ).len(),
        forall|i: int|
            0 <= i < stale.len() && (#[trigger] failures[i]) is Some ==> exists|w: Seq<char>|
                removal_warnings(stale, failures).contains(w) && names_both(
                    w,
                    stale[i].path@,
                    failures[i]->0@,
                ),
    decreases stale.len(),
{
    reveal(Seq::filter);
    if stale.len() > 0 {
        let rest = stale.drop_last();
        let others = failures.drop_last();
        law_each_refusal_is_warned_of(rest, others);
        let all = removal_warnings(stale, failures);
        let before = removal_warnings(rest, others);
        assert forall|i: int| 0 <= i < stale.len() && (#[trigger] failures[i]) is Some implies exists|
            w: Seq<char>,
        |
            all.contains(w) && names_both(w, stale[i].path@, failures[i]->0@) by {
            if i < rest.len() {
                assert(others[i] == failures[i]);
                let w = choose|w: Seq<char>|
                    before.contains(w) && names_both(w, rest[i].path@, others[i]->0@);
                assert(all[before.index_of(w)] == w);
                assert(all.contains(w) && names_both(w, stale[i].path@, failures[i]->0@));
            } else {
                let path = stale[i].path@;
                let e = failures[i]->0@;
                let w = "could not remove "@ + path + ": "@ + e;
                assert(all[before.len() as int] == w);
                assert(w =~= "could not remove "@ + path + (": "@) + e + Seq::<char>::empty());
                assert(all.contains(w) && names_both(w, path, e));
            }
        }
    }
}

/// Whether a text holds both, one after the other.
pub open spec fn names_both(text: Seq<char>, first: Seq<char>, second: Seq<char>) -> bool {
    exists|before: Seq<char>, between: Seq<char>, after: Seq<char>|
        text == #[trigger] (before + first + between + second + after)
}

/// Every collectable worktree directory, grouped by the repository it belongs
/// to. Reports only — nothing is removed.
pub fn collectable(found: &Vec<FoundRepository>, keep_for: &Option<Span>) -> (leftovers: Vec<
    RepositoryLeftovers,
>)
    ensures
        leftovers.len() == found.len(),
        forall|i: int|
            0 <= i < found.len() ==> (#[trigger] leftovers@[i]).repo == found@[i].repo && views(
                leftovers@[i].stale@,
            ) == stale_among(opt_view(found@[i].repo), found@[i].directories@, *keep_for),
{
    let mut leftovers: Vec<RepositoryLeftovers> = Vec::new();
    let mut at: usize = 0;
    while at < found.len()
        invariant
            at <= found.len(),
            leftovers.len() == at,
            forall|i: int|
                0 <= i < at ==> (#[trigger] leftovers@[i]).repo == found@[i].repo && views(
                    leftovers@[i].stale@,
                ) == stale_among(opt_view(found@[i].repo), found@[i].directories@, *keep_for),
        decreases found.len() - at,
    {
        let stale = stale_in(&found[at], keep_for);
        leftovers.push(RepositoryLeftovers { repo: found[at].repo.clone(), stale });
        at = at + 1;
    }
    leftovers
}

/// How many directories are stale in all.
pub open spec fn stale_count(found: Seq<RepositoryLeftovers>) -> nat
    decreases found.len(),
{
    if found.len() == 0 {
        0
    } else {
        stale_count(found.drop_last()) + found.last().stale@.len()
    }
}

proof fn lemma_count_only_grows(found: Seq<RepositoryLeftovers>, upto: int)
    requires
        0 <= upto <= found.len(),
    ensures
        stale_count(found.take(upto)) <= stale_count(found),
    decreases found.len() - upto,
{
    if upto == found.len() {
        assert(found.take(upto) =~= found);
    } else {
        lemma_count_only_grows(found, upto + 1);
        assert(found.take(upto + 1).drop_last() =~= found.take(upto));
    }
}

pub fn total(found: &Vec<RepositoryLeftovers>) -> (count: usize)
    requires
        stale_count(found@) <= usize::MAX,
    ensures
        count == stale_count(found@),
{
    let mut count: usize = 0;
    let mut at: usize = 0;
    while at < found.len()
        invariant
            at <= found.len(),
            stale_count(found@) <= usize::MAX,
            count == stale_count(found@.take(at as int)),
        decreases found.len() - at,
    {
        proof {
            assert(found@.take(at + 1).drop_last() =~= found@.take(at as int));
            assert(found@.take(at + 1).last() == found@[at as int]);
            lemma_count_only_grows(found@, at + 1);
        }
        count = count + found[at].stale.len();
        at = at + 1;
    }
    assert(found@.take(at as int) =~= found@);
    count
}

/// What a collection actually managed to do.
#[derive(Debug, Clone, PartialEq, Eq)]
pub struct Removed {
    pub directories: usize,
    /// Non-fatal problems, phrased for the user. A worktree that resists
    /// removal is worth saying so about, not worth failing the command over.
    pub warnings: Vec<String>,
}

/// What deleting one repository's directories and pruning it came to.
#[derive(Debug, PartialEq, Eq)]
pub struct RemovalOutcome {
    /// Beside each stale directory the reason it would not go, if it would
    /// not.
    pub failures: Vec<Option<String>>,
    /// What pruning printed as an error. `None` when it worked and when it was
    /// not called for.
    pub prune_failure: Option<String>,
}

/// The warnings about directories that would not go.
pub open spec fn removal_warnings(
    stale: Seq<StaleWorktree>,
    failures: Seq<Option<String>>,
) -> Seq<Seq<char>>
    decreases stale.len(),
{
    if stale.len() == 0 {
        Seq::empty()
    } else {
        let before = removal_warnings(stale.drop_last(), failures.drop_last());
        match failures.last() {
            Some(e) => before.push("could not remove "@ + stale.last().path@ + ": "@ + e@),
            None => before,
        }
    }
}

/// Whether a repository's worktree list is worth pruning: something was
/// removed from it, and it is known and still there.
pub open spec fn is_worth_pruning(leftovers: RepositoryLeftovers, repo_exists: bool) -> bool {
    leftovers.repo is Some && leftovers.stale@.len() > 0 && repo_exists
}

/// The command that prunes a repository's worktree list, where that is worth
/// it. It is run in the repository the worktrees belonged to.
pub fn pruning(leftovers: &RepositoryLeftovers, repo_exists: bool) -> (call: Option<GitCall>)
    ensures
        match call {
            Some(call) => is_worth_pruning(*leftovers, repo_exists) && call.is(
                leftovers.repo->0@,
                seq!["worktree"@, "prune"@],
                "worktree prune"@,
            ),
            None => !is_worth_pruning(*leftovers, repo_exists),
        },
{
    match &leftovers.repo {
        Some(repo) => if leftovers.stale.len() > 0 && repo_exists {
            Some(prune_worktrees(repo.as_str()))
        } else {
            None
        },
        None => None,
    }
}

/// The warning about a repository that would not be pruned.
pub open spec fn prune_warnings(repo: Option<Seq<char>>, failure: Option<Seq<char>>) -> Seq<
    Seq<char>,
> {
    match (repo, failure) {
        (Some(repo), Some(e)) => seq!["could not prune worktrees in "@ + repo + ": "@ + e],
        _ => seq![],
    }
}

/// The warnings a whole collection leaves, in order.
pub open spec fn all_warnings(
    found: Seq<RepositoryLeftovers>,
    outcomes: Seq<RemovalOutcome>,
) -> Seq<Seq<char>>
    decreases found.len(),
{
    if found.len() == 0 {
        Seq::empty()
    } else {
        all_warnings(found.drop_last(), outcomes.drop_last()) + removal_warnings(
            found.last().stale@,
            outcomes.last().failures@,
        ) + prune_warnings(opt_view(found.last().repo), opt_view(outcomes.last().prune_failure))
    }
}

/// How many directories would not go.
pub open spec fn refusals(
    found: Seq<RepositoryLeftovers>,
    outcomes: Seq<RemovalOutcome>,
) -> nat
    decreases found.len(),
{
    if found.len() == 0 {
        0
    } else {
        refusals(found.drop_last(), outcomes.drop_last()) + removal_warnings(
            found.last().stale@,
            outcomes.last().failures@,
        ).len()
    }
}

/// Whether there is an outcome for each repository, and in it one entry for
/// each of its directories.
pub open spec fn accounts_for(
    found: Seq<RepositoryLeftovers>,
    outcomes: Seq<RemovalOutcome>,
) -> bool {
    &&& outcomes.len() == found.len()
    &&& forall|i: int|
        0 <= i < found.len() ==> (#[trigger] outcomes[i]).failures@.len() == found[i].stale@.len()
}

proof fn lemma_refusals_are_few(stale: Seq<StaleWorktree>, failures: Seq<Option<String>>)
    requires
        stale.len() == failures.len(),
    ensures
        removal_warnings(stale, failures).len() <= stale.len(),
    decreases stale.len(),
{
    if stale.len() > 0 {
        lemma_refusals_are_few(stale.drop_last(), failures.drop_last());
    }
}

/// One repository's stale directories that went, and the reason for each one
/// that would not.
fn delete_directories(stale: &Vec<StaleWorktree>, failures: &Vec<Option<String>>) -> (removed:
    Removed)
    requires
        stale.len() == failures.len(),
    ensures
        texts(removed.warnings@) == removal_warnings(stale@, failures@),
        removed.directories + removed.warnings.len() == stale.len(),
{
    let mut warnings: Vec<String> = Vec::new();
    let mut at: usize = 0;
    assert(texts(warnings@) =~= removal_warnings(stale@.take(0), failures@.take(0)));
    while at < stale.len()
        invariant
            at <= stale.len(),
            stale.len() == failures.len(),
            texts(warnings@) == removal_warnings(
                stale@.take(at as int),
                failures@.take(at as int),
            ),
        decreases stale.len() - at,
    {
        let ghost before = warnings@;
        assert(stale@.take(at + 1).drop_last() =~= stale@.take(at as int));
        assert(failures@.take(at + 1).drop_last() =~= failures@.take(at as int));
        match &failures[at] {
            Some(e) => {
                let mut warning = String::from_str("could not remove ");
                warning.append(stale[at].path.as_str());
                warning.append(": ");
                warning.append(e.as_str());
                warnings.push(warning);
                assert(texts(warnings@) =~= texts(before).push(warning@));
            },
            None => {},
        }
        at = at + 1;
    }
    proof {
        assert(stale@.take(at as int) =~= stale@);
        assert(failures@.take(at as int) =~= failures@);
        lemma_refusals_are_few(stale@, failures@);
        assert(texts(warnings@).len() == warnings@.len());
    }
    let directories: usize = stale.len() - warnings.len();
    Removed { directories, warnings }
}

fn prune_warning(leftovers: &RepositoryLeftovers, outcome: &RemovalOutcome) -> (warnings: Vec<
    String,
>)
    ensures
        texts(warnings@) == prune_warnings(
            opt_view(leftovers.repo),
            opt_view(outcome.prune_failure),
        ),
{
    let mut warnings: Vec<String> = Vec::new();
    match (&leftovers.repo, &outcome.prune_failure) {
        (Some(repo), Some(e)) => {
            let mut warning = String::from_str("could not prune worktrees in ");
            warning.append(repo.as_str());
            warning.append(": ");
            warning.append(e.as_str());
            warnings.push(warning);
        },
        _ => {},
    }
    assert(texts(warnings@) =~= prune_warnings(
        opt_view(leftovers.repo),
        opt_view(outcome.prune_failure),
    ));
    warnings
}

/// What a collection managed to do, from what came of deleting the
/// directories in `found` and pruning each repository.
pub fn remove(found: &Vec<RepositoryLeftovers>, outcomes: &Vec<RemovalOutcome>) -> (removed:
    Removed)
    requires
        stale_count(found@) <= usize::MAX,
        accounts_for(found@, outcomes@),
    ensures
        removed.directories + refusals(found@, outcomes@) == stale_count(found@),
        texts(removed.warnings@) == all_warnings(found@, outcomes@),
{
    let mut directories: usize = 0;
    let mut warnings: Vec<String> = Vec::new();
    let mut at: usize = 0;
    assert(texts(warnings@) =~= all_warnings(found@.take(0), outcomes@.take(0)));
    while at < found.len()
        invariant
            at <= found.len(),
            stale_count(found@) <= usize::MAX,
            accounts_for(found@, outcomes@),
            directories + refusals(found@.take(at as int), outcomes@.take(at as int))
                == stale_count(found@.take(at as int)),
            texts(warnings@) == all_warnings(found@.take(at as int), outcomes@.take(at as int)),
        decreases found.len() - at,
    {
        let ghost before = warnings@;
        proof {
            assert(found@.take(at + 1).drop_last() =~= found@.take(at as int));
            assert(outcomes@.take(at + 1).drop_last() =~= outcomes@.take(at as int));
            assert(found@.take(at + 1).last() == found@[at as int]);
            assert(outcomes@.take(at + 1).last() == outcomes@[at as int]);
            assert(outcomes@[at as int].failures@.len() == found@[at as int].stale@.len());
            lemma_count_only_grows(found@, at + 1);
        }
        let mut deleted = delete_directories(&found[at].stale, &outcomes[at].failures);
        let mut pruned = prune_warning(&found[at], &outcomes[at]);
        let ghost (refused, unpruned) = (deleted.warnings@, pruned@);
        assert(texts(refused).len() == refused.len());
        directories = directories + deleted.directories;
        warnings.append(&mut deleted.warnings);
        warnings.append(&mut pruned);
        assert(texts(warnings@) =~= texts(before) + texts(refused) + texts(unpruned));
        at = at + 1;
    }
    assert(found@.take(at as int) =~= found@);
    assert(outcomes@.take(at as int) =~= outcomes@);
    Removed { directories, warnings }
}

/// A directory is told its own reason, whatever else is found: one more
/// directory adds an entry with the reason that holds of it, or nothing.
pub proof fn law_each_directory_is_judged_for_itself(
    repo: Option<Seq<char>>,
    directories: Seq<FoundDirectory>,
    found: FoundDirectory,
    keep_for: Option<Span>,
    job_id: nat,
)
    requires
        number_in(found.name@) == Some(job_id),
        job_id <= u64::MAX,
    ensures
        ({
            let before = stale_among(repo, directories, keep_for);
            let after = stale_among(repo, directories.push(found), keep_for);
            match collecting_reason(
                repo,
                job_id,
                found.standing,
                keep_for,
                idle_words(found.standing.idle),
            ) {
                Some(because) => after == before.push(
                    StaleWorktreeView { path: found.path@, because },
                ),
                None => after == before,
            }
        }),
{
    assert(directories.push(found).drop_last() =~= directories);
}

/// The warnings of a collection are those of its repositories in order: of each
/// the directories that would not go, then its worktree list where that would
/// not be pruned, by the repository's name and with the reason.
pub proof fn law_a_collection_warns_repository_by_repository(
    found: Seq<RepositoryLeftovers>,
    outcomes: Seq<RemovalOutcome>,
    one: RepositoryLeftovers,
    outcome: RemovalOutcome,
)
    requires
        outcomes.len() == found.len(),
    ensures
        ({
            let before = all_warnings(found, outcomes);
            let after = all_warnings(found.push(one), outcomes.push(outcome));
            let refused = removal_warnings(one.stale@, outcome.failures@);
            &&& (before + refused).is_prefix_of(after)
            &&& one.repo is Some && outcome.prune_failure is Some ==> after.len() == before.len()
                + refused.len() + 1 && names_both(
                after.last(),
                one.repo->0@,
                outcome.prune_failure->0@,
            )
            &&& one.repo is None || outcome.prune_failure is None ==> after == before + refused
            &&& refusals(found.push(one), outcomes.push(outcome)) == refusals(found, outcomes)
                + refused.len()
        }),
{
    let before = all_warnings(found, outcomes);
    let after = all_warnings(found.push(one), outcomes.push(outcome));
    let refused = removal_warnings(one.stale@, outcome.failures@);
    assert(found.push(one).drop_last() =~= found);
    assert(outcomes.push(outcome).drop_last() =~= outcomes);
    assert(after.take((before + refused).len() as int) =~= before + refused);
    if one.repo is Some && outcome.prune_failure is Some {
        let (repo, e) = (one.repo->0@, outcome.prune_failure->0@);
        let w = "could not prune worktrees in "@ + repo + ": "@ + e;
        assert(after.last() == w);
        assert(w =~= "could not prune worktrees in "@ + repo + ": "@ + e + Seq::<char>::empty());
    } else {
        assert(after =~= before + refused);
    }
}

/// A worktree list is pruned exactly when its repository is known, still there
/// and had something stale.
pub proof fn law_only_a_repository_that_is_there_is_pruned(
    leftovers: RepositoryLeftovers,
    repo_exists: bool,
)
    ensures
        is_worth_pruning(leftovers, repo_exists) <==> leftovers.repo is Some && repo_exists
            && leftovers.stale@ != Seq::<StaleWorktree>::empty(),
{
    if leftovers.stale@.len() == 0 {
        assert(leftovers.stale@ =~= Seq::<StaleWorktree>::empty());
    }
}

} // verus!
