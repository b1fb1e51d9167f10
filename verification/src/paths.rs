//! Where a job's state lives on disk.
//!
//! The rules are here; asking the filesystem and the environment is left to
//! the caller, who hands in what they said.

use crate::dag::{id_char, is_id_char, is_valid_id};
use crate::filepath::{ancestors, file_name, file_name_of, join_path, path_and_above, path_below};
use crate::lines::{trim_final_newlines, without_final_newlines};
use crate::number::{decimal, decimal_of, digit_char, hexadecimal, hexadecimal_of,
    is_digit, law_decimal_is_digits, law_decimal_is_injective, law_decimal_reads_back, law_hexadecimal_is_injective, number_of,
    number_up_to};
use crate::text::{chars_of, holds, texts};
use vstd::prelude::*;
use vstd::utf8::encode_utf8;

verus! {

/// What tells a directory is the top of a repository: `.git` is a directory in
/// a normal repo and a file in a worktree checkout.
pub fn git_marker(dir: &str) -> (path: String)
    ensures
        path@ == path_below(dir@, ".git"@),
{
    join_path(dir, ".git")
}

/// The first of `dirs` that is among `marked`.
pub open spec fn first_among(dirs: Seq<Seq<char>>, marked: Seq<Seq<char>>) -> Option<Seq<char>>
    decreases dirs.len(),
{
    if dirs.len() == 0 {
        None
    } else if marked.contains(dirs[0]) {
        Some(dirs[0])
    } else {
        first_among(dirs.skip(1), marked)
    }
}

/// The top of the repository `from` lies in: the nearest directory, going up,
/// of those that were found to hold a [`git_marker`].
pub fn git_root(from: &str, marked: &Vec<String>) -> (root: Option<String>)
    ensures
        match root {
            Some(root) => first_among(path_and_above(from@), texts(marked@)) == Some(root@),
            None => first_among(path_and_above(from@), texts(marked@)) is None,
        },
{
    let dirs = ancestors(from);
    let ghost all = path_and_above(from@);
    let mut at: usize = 0;
    assert(all.skip(0) =~= all);
    while at < dirs.len()
        invariant
            at <= dirs.len(),
            texts(dirs@) == all,
            all == path_and_above(from@),
            first_among(all, texts(marked@)) == first_among(all.skip(at as int), texts(marked@)),
        decreases dirs.len() - at,
    {
        assert(all.skip(at as int)[0] == dirs@[at as int]@);
        if holds(marked, dirs[at].as_str()) {
            return Some(dirs[at].clone());
        }
        assert(all.skip(at as int).skip(1) =~= all.skip(at + 1));
        at = at + 1;
    }
    None
}

/// Where the state of a repository's jobs lives.
pub open spec fn jobs_root_of(git_root: Seq<char>) -> Seq<char> {
    path_below(path_below(git_root, ".assembly"@), "jobs"@)
}

pub fn jobs_root(git_root: &str) -> (root: String)
    ensures
        root@ == jobs_root_of(git_root@),
{
    join_path(join_path(git_root, ".assembly").as_str(), "jobs")
}

/// File inside a repository's worktree directory naming the repository it
/// belongs to.
pub const REPOSITORY_MARKER: &'static str = "repo";

/// FNV-1a of the bytes.
pub open spec fn fnv1a(bytes: Seq<u8>) -> u64
    decreases bytes.len(),
{
    if bytes.len() == 0 {
        0xcbf2_9ce4_8422_2325
    } else {
        (fnv1a(bytes.drop_last()) ^ bytes.last() as u64).wrapping_mul(0x0000_0100_0000_01b3)
    }
}

/// FNV-1a, written out rather than taken from a hasher whose output may change
/// from one toolchain to the next. A worktree path that moved under an upgrade
/// would orphan every job already on disk.
fn stable_hash(bytes: &[u8]) -> (hash: u64)
    ensures
        hash == fnv1a(bytes@),
{
    let mut hash: u64 = 0xcbf2_9ce4_8422_2325;
    let mut at: usize = 0;
    while at < bytes.len()
        invariant
            at <= bytes.len(),
            hash == fnv1a(bytes@.take(at as int)),
        decreases bytes.len() - at,
    {
        assert(bytes@.take(at + 1).drop_last() =~= bytes@.take(at as int));
        assert(bytes@.take(at + 1).last() == bytes@[at as int]);
        hash = (hash ^ bytes[at] as u64).wrapping_mul(0x0000_0100_0000_01b3);
        at = at + 1;
    }
    assert(bytes@.take(at as int) =~= bytes@);
    hash
}

/// A name with every character that is not safe in a filename replaced.
pub open spec fn safe_name(name: Seq<char>) -> Seq<char> {
    Seq::new(
        name.len(),
        |i: int| if is_id_char(name[i]) {
            name[i]
        } else {
            '-'
        },
    )
}

/// The directory name that identifies one repository.
pub open spec fn slug(repo: Seq<char>) -> Seq<char> {
    let name = match file_name(repo) {
        Some(name) => name,
        None => "repo"@,
    };
    safe_name(name) + "-"@ + hexadecimal(fnv1a(encode_utf8(repo)) as nat, 16)
}

/// A directory name identifying one repository.
///
/// Job ids restart at 1 in every repository, so a job id alone cannot key a
/// worktree directory — the first job of two different repos would claim the
/// same path. The slug leads with the repository's own directory name so the
/// tree stays browsable, and ends with a hash of its absolute path so two
/// repositories sharing a name stay apart.
pub fn repo_slug(repo: &str) -> (text: String)
    ensures
        text@ == slug(repo@),
{
    let name = match file_name_of(repo) {
        Some(name) => name,
        None => String::from_str("repo"),
    };
    let chars = chars_of(name.as_str());
    let mut text = String::new();
    let mut at: usize = 0;
    while at < chars.len()
        invariant
            at <= chars.len(),
            chars@ == name@,
            text@ == safe_name(name@).take(at as int),
        decreases chars.len() - at,
    {
        text.push(
            if id_char(chars[at]) {
                chars[at]
            } else {
                '-'
            },
        );
        assert(safe_name(name@).take(at + 1) =~= safe_name(name@).take(at as int).push(
            safe_name(name@)[at as int],
        ));
        at = at + 1;
    }
    assert(safe_name(name@).take(at as int) =~= safe_name(name@));
    text.append("-");
    text.append(hexadecimal_of(stable_hash(repo.as_bytes()), 16).as_str());
    text
}

proof fn lemma_hexadecimal_is_safe(n: nat, width: nat)
    ensures
        hexadecimal(n, width).len() == width,
        forall|i: int| 0 <= i < width ==> is_id_char(#[trigger] hexadecimal(n, width)[i]),
    decreases width,
{
    if width > 0 {
        lemma_hexadecimal_is_safe(n / 16, (width - 1) as nat);
        assert(is_id_char(digit_char(n % 16)));
    }
}

/// A slug is usable as a directory name, whatever the repository is called:
/// it holds only letters, digits, `_` and `-`, and is never empty.
pub proof fn law_slug_is_a_safe_directory_name(repo: Seq<char>)
    ensures
        slug(repo).len() > 0,
        forall|i: int| 0 <= i < slug(repo).len() ==> is_id_char(#[trigger] slug(repo)[i]),
{
    reveal_strlit("-");
    let hash = fnv1a(encode_utf8(repo)) as nat;
    lemma_hexadecimal_is_safe(hash, 16);
    let name = match file_name(repo) {
        Some(name) => name,
        None => "repo"@,
    };
    assert forall|i: int| 0 <= i < slug(repo).len() implies is_id_char(#[trigger] slug(repo)[i]) by {
        if i < name.len() {
            assert(slug(repo)[i] == safe_name(name)[i]);
        } else if i == name.len() {
            assert(slug(repo)[i] == '-');
        } else {
            assert(slug(repo)[i] == hexadecimal(hash, 16)[i - name.len() - 1]);
        }
    }
}

/// Two repositories share a slug only if their paths hash alike: the slug ends
/// with the hash of the whole path, so the same name at another path is kept
/// apart.
pub proof fn law_slug_separates_what_hashes_apart(a: Seq<char>, b: Seq<char>)
    requires
        slug(a) == slug(b),
    ensures
        fnv1a(encode_utf8(a)) == fnv1a(encode_utf8(b)),
{
    let left = hexadecimal(fnv1a(encode_utf8(a)) as nat, 16);
    let right = hexadecimal(fnv1a(encode_utf8(b)) as nat, 16);
    lemma_hexadecimal_is_safe(fnv1a(encode_utf8(a)) as nat, 16);
    lemma_hexadecimal_is_safe(fnv1a(encode_utf8(b)) as nat, 16);
    let from = slug(a).len() - 16;
    assert(slug(a).skip(from) =~= left);
    assert(slug(b).skip(from) =~= right);
    law_hexadecimal_is_injective(fnv1a(encode_utf8(a)), fnv1a(encode_utf8(b)));
}

/// Environment variable that moves every worktree somewhere other than
/// `$HOME` — a faster disk, or a directory a test owns outright.
///
/// Worktrees live under `$HOME` by default, never inside the repository: the
/// target repo must stay untouched, and a worktree inside it would need a
/// `.gitignore` entry assembly-line is not entitled to add.
pub const WORKTREE_ROOT_VAR: &'static str = "ASSEMBLY_WORKTREE_ROOT";

/// Where worktrees go, given what the environment says.
pub open spec fn worktrees_root(
    override_root: Option<Seq<char>>,
    home: Option<Seq<char>>,
) -> Option<Seq<char>> {
    match (override_root, home) {
        (Some(elsewhere), _) => Some(elsewhere),
        (None, Some(home)) => Some(path_below(path_below(home, ".assembly"@), "wt"@)),
        (None, None) => None,
    }
}

/// What an optional text holds.
pub open spec fn opt_text(text: Option<&str>) -> Option<Seq<char>> {
    match text {
        Some(text) => Some(text@),
        None => None,
    }
}

/// Where worktrees go, given what the environment says. The override wins
/// outright and is used verbatim.
///
/// `None` only when neither [`WORKTREE_ROOT_VAR`] nor `$HOME` is set, which
/// the caller should report rather than guessing a location.
pub fn worktrees_root_given(override_root: Option<&str>, home: Option<&str>) -> (root: Option<
    String,
>)
    ensures
        match root {
            Some(root) => worktrees_root(opt_text(override_root), opt_text(home)) == Some(root@),
            None => worktrees_root(opt_text(override_root), opt_text(home)) is None,
        },
{
    match override_root {
        Some(elsewhere) => Some(String::from_str(elsewhere)),
        None => match home {
            Some(home) => Some(join_path(join_path(home, ".assembly").as_str(), "wt")),
            None => None,
        },
    }
}

/// One repository's worktrees, across all of its jobs, below where worktrees
/// go. This is the level `gc` walks, and where the repository marker lives.
pub fn repo_worktrees_root(worktrees_root: Option<&str>, repo: &str) -> (root: Option<String>)
    ensures
        match (worktrees_root, root) {
            (Some(above), Some(root)) => root@ == path_below(above@, slug(repo@)),
            (None, None) => true,
            _ => false,
        },
{
    match worktrees_root {
        Some(above) => Some(join_path(above, repo_slug(repo).as_str())),
        None => None,
    }
}

/// One job's worktrees, below where worktrees go.
pub open spec fn job_worktrees(worktrees_root: Seq<char>, repo: Seq<char>, job_id: nat) -> Seq<
    char,
> {
    path_below(path_below(worktrees_root, slug(repo)), decimal(job_id))
}

/// One job's worktrees.
pub fn worktree_root(worktrees_root: Option<&str>, repo: &str, job_id: u64) -> (root: Option<
    String,
>)
    ensures
        match (worktrees_root, root) {
            (Some(above), Some(root)) => root@ == job_worktrees(above@, repo@, job_id as nat),
            (None, None) => true,
            _ => false,
        },
{
    match repo_worktrees_root(worktrees_root, repo) {
        Some(above) => Some(join_path(above.as_str(), decimal_of(job_id).as_str())),
        None => None,
    }
}

proof fn lemma_decimal_below_is_injective(base: Seq<char>, a: nat, b: nat)
    requires
        path_below(base, decimal(a)) == path_below(base, decimal(b)),
    ensures
        a == b,
{
    law_decimal_is_digits(a);
    law_decimal_is_digits(b);
    assert(is_digit(decimal(a)[0]) && is_digit(decimal(b)[0]));
    let whole = path_below(base, decimal(a));
    let from = if base.len() > 0 && base.last() != '/' {
        base.len() + 1
    } else {
        base.len()
    };
    assert(whole.skip(from as int) =~= decimal(a));
    assert(whole.skip(from as int) =~= decimal(b));
    law_decimal_is_injective(a, b);
}

/// Two jobs of a repository never share a worktree directory, nor a state
/// directory.
pub proof fn law_jobs_do_not_share_directories(
    worktrees_root: Seq<char>,
    jobs_root: Seq<char>,
    repo: Seq<char>,
    a: nat,
    b: nat,
)
    requires
        a != b,
    ensures
        job_worktrees(worktrees_root, repo, a) != job_worktrees(worktrees_root, repo, b),
        job_dir(jobs_root, a) != job_dir(jobs_root, b),
{
    if job_worktrees(worktrees_root, repo, a) == job_worktrees(worktrees_root, repo, b) {
        lemma_decimal_below_is_injective(path_below(worktrees_root, slug(repo)), a, b);
    }
    if job_dir(jobs_root, a) == job_dir(jobs_root, b) {
        lemma_decimal_below_is_injective(jobs_root, a, b);
    }
}

/// What stands below a path: the path itself, then a `/`, then the rest.
proof fn lemma_below(base: Seq<char>, name: Seq<char>)
    requires
        base.len() > 0,
        base.last() != '/',
        name.len() > 0,
        forall|i: int| 0 <= i < name.len() ==> is_id_char(#[trigger] name[i]),
    ensures
        path_below(base, name) == base + seq!['/'] + name,
        path_below(base, name).last() != '/',
        forall|i: int|
            base.len() < i < path_below(base, name).len() ==> #[trigger] path_below(base, name)[i]
                != '/',
{
    assert(is_id_char(name[0]));
    assert(is_id_char(name[name.len() - 1]));
    let whole = path_below(base, name);
    assert forall|i: int| base.len() < i < whole.len() implies #[trigger] whole[i] != '/' by {
        assert(is_id_char(name[i - base.len() - 1]));
    }
}

/// No two jobs share a worktree directory, of one repository or of two: where
/// the directories are the same, so are the job ids and the slugs of the
/// repositories.
pub proof fn law_worktrees_are_kept_apart(
    worktrees_root: Seq<char>,
    repo_a: Seq<char>,
    a: nat,
    repo_b: Seq<char>,
    b: nat,
)
    requires
        job_worktrees(worktrees_root, repo_a, a) == job_worktrees(worktrees_root, repo_b, b),
    ensures
        a == b,
        slug(repo_a) == slug(repo_b),
        fnv1a(encode_utf8(repo_a)) == fnv1a(encode_utf8(repo_b)),
{
    lemma_slug_below(worktrees_root, repo_a);
    lemma_slug_below(worktrees_root, repo_b);
    lemma_decimal_is_safe(a);
    lemma_decimal_is_safe(b);
    let base_a = path_below(worktrees_root, slug(repo_a));
    let base_b = path_below(worktrees_root, slug(repo_b));
    lemma_below(base_a, decimal(a));
    lemma_below(base_b, decimal(b));
    let whole = path_below(base_a, decimal(a));
    assert(whole[base_a.len() as int] == '/');
    assert(whole[base_b.len() as int] == '/');
    assert(base_a.len() == base_b.len());
    assert(whole.skip(base_a.len() as int + 1) =~= decimal(a));
    assert(whole.skip(base_b.len() as int + 1) =~= decimal(b));
    law_decimal_is_injective(a, b);
    assert(whole.take(base_a.len() as int) =~= base_a);
    assert(whole.take(base_b.len() as int) =~= base_b);
    let from = base_a.len() - slug(repo_a).len();
    let from_b = base_b.len() - slug(repo_b).len();
    assert(from == from_b);
    assert(base_a.skip(from) =~= slug(repo_a));
    assert(base_b.skip(from) =~= slug(repo_b));
    law_slug_separates_what_hashes_apart(repo_a, repo_b);
}

proof fn lemma_decimal_is_safe(n: nat)
    ensures
        decimal(n).len() > 0,
        forall|i: int| 0 <= i < decimal(n).len() ==> is_id_char(#[trigger] decimal(n)[i]),
{
    law_decimal_is_digits(n);
    assert forall|i: int| 0 <= i < decimal(n).len() implies is_id_char(#[trigger] decimal(n)[i]) by {
        assert(is_digit(decimal(n)[i]));
    }
}

proof fn lemma_slug_below(worktrees_root: Seq<char>, repo: Seq<char>)
    ensures
        ({
            let base = path_below(worktrees_root, slug(repo));
            let from = if worktrees_root.len() > 0 && worktrees_root.last() != '/' {
                worktrees_root.len() + 1
            } else {
                worktrees_root.len()
            };
            &&& base.len() == from + slug(repo).len()
            &&& base.skip(from as int) == slug(repo)
            &&& base.last() != '/'
        }),
{
    law_slug_is_a_safe_directory_name(repo);
    let name = slug(repo);
    assert(is_id_char(name[0]));
    assert(is_id_char(name[name.len() - 1]));
    let from = if worktrees_root.len() > 0 && worktrees_root.last() != '/' {
        worktrees_root.len() + 1
    } else {
        worktrees_root.len()
    };
    assert(path_below(worktrees_root, name).skip(from as int) =~= name);
}

/// What recording a repository takes: the directory that has to be there, the
/// marker to write in it, and what the marker holds.
#[derive(Debug, Clone, PartialEq, Eq)]
pub struct Recorded {
    pub dir: String,
    pub marker: String,
    pub body: String,
}

pub struct RecordedView {
    pub dir: Seq<char>,
    pub marker: Seq<char>,
    pub body: Seq<char>,
}

impl View for Recorded {
    type V = RecordedView;

    open spec fn view(&self) -> RecordedView {
        RecordedView { dir: self.dir@, marker: self.marker@, body: self.body@ }
    }
}

/// What recording a repository takes, below where worktrees go: a marker that
/// holds its path, among its worktrees.
pub open spec fn recorded(worktrees_root: Seq<char>, repo: Seq<char>) -> RecordedView {
    let dir = path_below(worktrees_root, slug(repo));
    RecordedView { dir, marker: path_below(dir, REPOSITORY_MARKER@), body: repo }
}

/// Why a repository cannot be recorded.
pub open spec fn nowhere_to_record() -> Seq<char> {
    "HOME is unset, so worktrees have nowhere to live"@
}

/// Record which repository the worktrees in a directory belong to; an error
/// when worktrees have nowhere to live.
///
/// The slug carries a hash, so it cannot be read backwards. Without a marker
/// `gc` could only collect leftovers for the repository it happens to be run
/// from; with it, every repository's are reachable from one place.
pub fn record_repository_for_worktrees(worktrees_root: Option<&str>, repo: &str) -> (record:
    Result<Recorded, String>)
    ensures
        match worktrees_root {
            Some(above) => record matches Ok(record) && record@ == recorded(above@, repo@),
            None => record matches Err(e) && e@ == nowhere_to_record(),
        },
{
    match repo_worktrees_root(worktrees_root, repo) {
        Some(dir) => {
            let marker = marker_path(dir.as_str());
            Ok(Recorded { dir, marker, body: String::from_str(repo) })
        },
        None => Err(String::from_str("HOME is unset, so worktrees have nowhere to live")),
    }
}

/// The file that names the repository a worktree directory belongs to.
pub fn marker_path(repo_worktrees_root: &str) -> (path: String)
    ensures
        path@ == path_below(repo_worktrees_root@, REPOSITORY_MARKER@),
{
    join_path(repo_worktrees_root, REPOSITORY_MARKER)
}

/// The repository a worktree directory belongs to, from what its marker holds,
/// or `None` when it carries no marker — an empty or hand-made directory.
pub fn repository_owning_worktrees(marker: Option<&str>) -> (repo: Option<String>)
    ensures
        match (marker, repo) {
            (Some(body), Some(repo)) => repo@ == without_final_newlines(body@),
            (None, None) => true,
            _ => false,
        },
{
    match marker {
        Some(body) => Some(trim_final_newlines(body)),
        None => None,
    }
}

/// The marker gives back the repository that was recorded: reading what was
/// written names it, and it is written where [`marker_path`] looks for it among
/// the repository's worktrees.
pub proof fn law_marker_names_the_repository_recorded(worktrees_root: Seq<char>, repo: Seq<char>)
    requires
        repo.len() > 0 ==> repo.last() != '\n',
    ensures
        without_final_newlines(recorded(worktrees_root, repo).body) == repo,
        recorded(worktrees_root, repo).marker == path_below(
            recorded(worktrees_root, repo).dir,
            REPOSITORY_MARKER@,
        ),
{
}

/// Where a job's worktrees go its repository is recorded: the directory the
/// marker stands in is the one the job's own directory stands in.
pub proof fn law_the_record_stands_beside_the_worktrees(
    worktrees_root: Seq<char>,
    repo: Seq<char>,
    job_id: nat,
)
    ensures
        job_worktrees(worktrees_root, repo, job_id) == path_below(
            recorded(worktrees_root, repo).dir,
            decimal(job_id),
        ),
{
}

/// The job id a directory name stands for.
pub open spec fn id_named(name: Seq<char>) -> Option<nat> {
    number_up_to(name, u64::MAX as nat)
}

/// Whether `id` is the greatest job id among the names.
pub open spec fn is_latest(names: Seq<Seq<char>>, id: nat) -> bool {
    &&& exists|i: int| 0 <= i < names.len() && id_named(#[trigger] names[i]) == Some(id)
    &&& forall|i: int|
        0 <= i < names.len() ==> (id_named(#[trigger] names[i]) matches Some(other) ==> other <= id)
}

/// Whether none of the names is a job's.
pub open spec fn has_no_jobs(names: Seq<Seq<char>>) -> bool {
    forall|i: int| 0 <= i < names.len() ==> id_named(#[trigger] names[i]) is None
}

/// The most recent job, from the names in the jobs directory, or `None` when
/// there have been none. Names that are no job id are passed over.
pub fn latest_job_id(names: &Vec<String>) -> (latest: Option<u64>)
    ensures
        match latest {
            Some(id) => is_latest(texts(names@), id as nat),
            None => has_no_jobs(texts(names@)),
        },
{
    let ghost all = texts(names@);
    let mut latest: Option<u64> = None;
    let mut at: usize = 0;
    while at < names.len()
        invariant
            at <= names.len(),
            all == texts(names@),
            match latest {
                Some(id) => (exists|i: int|
                    0 <= i < at && id_named(#[trigger] all[i]) == Some(id as nat)) && forall|i: int|
                    0 <= i < at ==> (id_named(#[trigger] all[i]) matches Some(other) ==> other
                        <= id),
                None => forall|i: int| 0 <= i < at ==> id_named(#[trigger] all[i]) is None,
            },
        decreases names.len() - at,
    {
        let ghost before = latest;
        assert(all[at as int] == names@[at as int]@);
        match number_of(names[at].as_str(), u64::MAX) {
            Some(id) => {
                assert(id_named(all[at as int]) == Some(id as nat));
                match latest {
                    Some(most) => {
                        if id > most {
                            latest = Some(id);
                        }
                    },
                    None => {
                        latest = Some(id);
                    },
                }
            },
            None => {},
        }
        at = at + 1;
    }
    latest
}

/// The id a new job should claim, from the names in the jobs directory. A
/// missing jobs directory holds no names — it means this is the first job.
pub fn next_job_id(names: &Vec<String>) -> (next: u64)
    requires
        forall|i: int|
            0 <= i < names.len() ==> id_named((#[trigger] names@[i])@) != Some(u64::MAX as nat),
    ensures
        next > 0,
        has_no_jobs(texts(names@)) ==> next == 1,
        !has_no_jobs(texts(names@)) ==> is_latest(texts(names@), (next - 1) as nat),
{
    match latest_job_id(names) {
        Some(id) => {
            let ghost all = texts(names@);
            proof {
                let i = choose|i: int|
                    0 <= i < all.len() && id_named(#[trigger] all[i]) == Some(id as nat);
                assert(id_named(names@[i]@) != Some(u64::MAX as nat));
                assert(id_named(all[i]) is Some);
            }
            id + 1
        },
        None => 1,
    }
}

/// The id a new job claims is not taken: no name in the jobs directory stands
/// for it, and its own directory is not there yet.
pub proof fn law_next_job_id_is_not_taken(names: Seq<Seq<char>>, next: nat)
    requires
        has_no_jobs(names) ==> next == 1,
        !has_no_jobs(names) ==> next > 0 && is_latest(names, (next - 1) as nat),
        next <= u64::MAX,
    ensures
        forall|i: int| 0 <= i < names.len() ==> id_named(#[trigger] names[i]) != Some(next),
        !names.contains(decimal(next)),
{
    assert forall|i: int| 0 <= i < names.len() implies id_named(#[trigger] names[i]) != Some(
        next,
    ) by {}
    if names.contains(decimal(next)) {
        let i = names.index_of(decimal(next));
        law_decimal_reads_back(next);
        assert(id_named(names[i]) == Some(next));
    }
}

/// Where one job's state lives.
pub open spec fn job_dir(jobs_root: Seq<char>, id: nat) -> Seq<char> {
    path_below(jobs_root, decimal(id))
}

#[derive(Debug, Clone, PartialEq, Eq)]
pub struct JobPaths {
    pub id: u64,
    pub dir: String,
}

impl JobPaths {
    pub fn events(&self) -> (path: String)
        ensures
            path@ == path_below(self.dir@, "events.jsonl"@),
    {
        join_path(self.dir.as_str(), "events.jsonl")
    }

    pub fn meta(&self) -> (path: String)
        ensures
            path@ == path_below(self.dir@, "meta.json"@),
    {
        join_path(self.dir.as_str(), "meta.json")
    }

    /// Everything the agent printed, across every round — one job, one log.
    pub fn log(&self) -> (path: String)
        ensures
            path@ == path_below(self.dir@, "job.log"@),
    {
        join_path(self.dir.as_str(), "job.log")
    }

    /// Where the job's scratch checkout lives, one level below
    /// [`worktree_root`] rather than being it — so removing the checkout
    /// leaves the job's own directory for `gc` to find and report.
    pub fn worktree(&self, worktrees_root: Option<&str>, repo: &str) -> (path: Option<String>)
        ensures
            match (worktrees_root, path) {
                (Some(above), Some(path)) => path@ == path_below(
                    job_worktrees(above@, repo@, self.id as nat),
                    "checkout"@,
                ),
                (None, None) => true,
                _ => false,
            },
    {
        match worktree_root(worktrees_root, repo, self.id) {
            Some(root) => Some(join_path(root.as_str(), "checkout")),
            None => None,
        }
    }
}

/// Where a new job's state is to be created.
pub fn create_job(jobs_root: &str, id: u64) -> (paths: JobPaths)
    ensures
        paths.id == id,
        paths.dir@ == job_dir(jobs_root@, id as nat),
{
    JobPaths { id, dir: join_path(jobs_root, decimal_of(id).as_str()) }
}

/// Locate an existing job, told whether [`create_job`]'s directory for it is
/// there. An error rather than an empty result, so `revise` and `status` can
/// report a wrong job id.
pub fn open_job(jobs_root: &str, id: u64, is_dir: bool) -> (found: Result<JobPaths, String>)
    ensures
        match found {
            Ok(paths) => is_dir && paths.id == id && paths.dir@ == job_dir(jobs_root@, id as nat),
            Err(e) => !is_dir && e@ == "no such job: "@ + decimal(id as nat),
        },
{
    if is_dir {
        Ok(create_job(jobs_root, id))
    } else {
        let mut message = String::from_str("no such job: ");
        message.append(decimal_of(id).as_str());
        Err(message)
    }
}

/// Enough to reconstruct a job from its id alone — `revise` needs the prompt
/// it is revising, and the ref it was cut from.
#[derive(Debug, Clone, PartialEq, Eq)]
pub struct JobMeta {
    pub repo: String,
    pub base_ref: String,
    pub prompt: String,
    pub provider: String,
}

/// The repository is the nearest marked directory, going up; where none is
/// marked there is no repository.
pub proof fn law_the_nearest_repository_is_found(
    dirs: Seq<Seq<char>>,
    marked: Seq<Seq<char>>,
    at: int,
)
    requires
        0 <= at <= dirs.len(),
        forall|i: int| 0 <= i < at ==> !marked.contains(#[trigger] dirs[i]),
        at < dirs.len() ==> marked.contains(dirs[at]),
    ensures
        first_among(dirs, marked) == (if at < dirs.len() {
            Some(dirs[at])
        } else {
            None
        }),
    decreases dirs.len(),
{
    if at > 0 {
        let rest = dirs.skip(1);
        assert(!marked.contains(dirs[0]));
        assert forall|i: int| 0 <= i < at - 1 implies !marked.contains(#[trigger] rest[i]) by {
            assert(rest[i] == dirs[i + 1]);
        }
        law_the_nearest_repository_is_found(rest, marked, at - 1);
    }
}

/// An override is used as it stands, whatever home there is; without one
/// worktrees go below home, and without either nowhere.
pub proof fn law_an_override_is_used_verbatim(elsewhere: Seq<char>, home: Option<Seq<char>>)
    ensures
        worktrees_root(Some(elsewhere), home) == Some(elsewhere),
        home matches Some(dir) ==> (worktrees_root(None, home) matches Some(root)
            && dir.is_prefix_of(root) && root.len() > dir.len()),
        home is None ==> worktrees_root(None, home) is None,
{
    if let Some(dir) = home {
        reveal_strlit(".assembly");
        reveal_strlit("wt");
        let inner = path_below(dir, ".assembly"@);
        let root = path_below(inner, "wt"@);
        assert(root.take(dir.len() as int) =~= dir);
    }
}

/// A repository's directory keeps what is safe of its name, character for
/// character, and has a dash for each that is not.
pub proof fn law_a_safe_name_keeps_what_is_safe(name: Seq<char>, i: int)
    requires
        0 <= i < name.len(),
    ensures
        safe_name(name).len() == name.len(),
        is_valid_id(seq![name[i]]) ==> safe_name(name)[i] == name[i],
        !is_valid_id(seq![name[i]]) ==> safe_name(name)[i] == '-',
{
    let one = seq![name[i]];
    assert(one[0] == name[i]);
}

} // verus!
