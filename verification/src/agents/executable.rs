//! Bounded probes of installed agents: where an executable is looked for, how much of its output is
//! read, and which version it tells.
//!
//! The host looks at files and runs the process; what it sees is judged here. A version is a
//! diagnostic only: a process that started counts as installed whatever it printed.

use vstd::prelude::*;
use crate::agents::claude_settings::maybe_text;
use crate::paths::{absolute, is_absolute, path_steps, split, split_text, steps_of};
use crate::text::{
    alphanumeric, before_first, byte_len, bytes_in, chars_of, decimal_digits, is_alphanumeric,
    is_decimal, is_space, same, space, take_before, text_of_bytes, utf8_text, views_of,
};

verus! {

/// How many bytes of output a probe reads.
pub const OUTPUT_LIMIT: usize = 65_536;

/// How long, in milliseconds, a probe waits between two looks.
pub const PROBE_PAUSE_MS: u64 = 5;

/// How long, in milliseconds, a launch may be tried again.
pub const LAUNCH_BUDGET_MS: u64 = 100;

#[derive(Debug)]
pub struct ExecutableObservationV1 {
    pub version: String,
    pub canonical_path: String,
}

#[derive(Clone, Copy, Debug, PartialEq, Eq, Structural)]
pub enum ProbeFailure {
    NotExecutable,
    Unavailable,
    LaunchFailed(Option<i32>),
    PipeSetupFailed(i32),
    PipeReadFailed(Option<i32>),
    WaitFailed(Option<i32>),
    Failed,
    TimedOut,
    OutputLimit,
}

#[derive(Debug)]
pub enum ExecutableProbe {
    Installed(ExecutableObservationV1),
    NotFound,
    Unknown(ProbeFailure),
}

/// The words of a text: its longest pieces without white space.
pub open spec fn words(s: Seq<char>) -> Seq<Seq<char>>
    decreases s.len(),
{
    if s.len() == 0 {
        Seq::empty()
    } else if is_space(s.last()) {
        words(s.drop_last())
    } else if s.len() == 1 || is_space(s[s.len() - 2]) {
        words(s.drop_last()).push(seq![s.last()])
    } else {
        let before = words(s.drop_last());
        before.drop_last().push(before.last().push(s.last()))
    }
}

/// Splits a text into its words.
pub fn split_words(s: &str) -> (r: Vec<String>)
    ensures
        views_of(r@) == words(s@),
{
    let chars = chars_of(s);
    let mut out: Vec<String> = Vec::new();
    let mut current = String::new();
    let mut i: usize = 0;
    proof {
        assert(s@.take(0) == Seq::<char>::empty());
        assert(views_of(out@) =~= words(s@.take(0)));
        reveal_strlit("");
    }
    while i < chars.len()
        invariant
            i <= chars.len(),
            chars@ == s@,
            (current@.len() == 0) == (i == 0 || is_space(s@[i - 1])),
            if current@.len() == 0 {
                views_of(out@) == words(s@.take(i as int))
            } else {
                views_of(out@).push(current@) == words(s@.take(i as int))
            },
        decreases chars.len() - i,
    {
        let c = chars[i];
        let ghost done = views_of(out@);
        let ghost word = current@;
        let ghost before = s@.take(i as int);
        let ghost after = s@.take(i + 1);
        proof {
            assert(after.drop_last() == before);
            assert(after.last() == c);
            reveal_strlit("");
            if word.len() == 0 {
                assert(word =~= ""@);
            }
            if i > 0 {
                assert(after[after.len() - 2] == s@[i - 1]);
            }
        }
        if space(c) {
            if !same(current.as_str(), "") {
                out.push(current);
                assert(views_of(out@) =~= done.push(word));
            }
            current = String::new();
        } else {
            current.push(c);
            proof {
                if word.len() == 0 {
                    assert(current@ =~= seq![c]);
                } else {
                    assert(words(before).last() == word);
                    assert(words(before).drop_last() =~= done);
                }
            }
        }
        i += 1;
    }
    proof {
        assert(s@.take(i as int) == s@);
        reveal_strlit("");
        if current@.len() == 0 {
            assert(current@ =~= ""@);
        }
    }
    if !same(current.as_str(), "") {
        let ghost done = views_of(out@);
        let ghost word = current@;
        out.push(current);
        assert(views_of(out@) =~= done.push(word));
    }
    out
}

pub open spec fn is_version_char(c: char) -> bool {
    is_alphanumeric(c) || c == '.' || c == '-' || c == '+' || c == '_'
}

/// Whether a word is a version: at most 64 bytes, three numbers between dots, and perhaps more
/// after a dash or a plus.
pub open spec fn is_version(word: Seq<char>) -> bool {
    let numbers = split(before_first(before_first(word, '-'), '+'), '.');
    byte_len(word) <= 64 && (forall|i: int|
        0 <= i < word.len() ==> is_version_char(#[trigger] word[i])) && numbers.len() == 3
        && is_decimal(numbers[0]) && is_decimal(numbers[1]) && is_decimal(numbers[2])
}

fn version_chars(word: &str) -> (r: bool)
    ensures
        r == forall|i: int| 0 <= i < word@.len() ==> is_version_char(#[trigger] word@[i]),
{
    let chars = chars_of(word);
    let mut i: usize = 0;
    while i < chars.len()
        invariant
            i <= chars.len(),
            chars@ == word@,
            forall|j: int| 0 <= j < i ==> is_version_char(#[trigger] word@[j]),
        decreases chars.len() - i,
    {
        let c = chars[i];
        if !(alphanumeric(c) || c == '.' || c == '-' || c == '+' || c == '_') {
            assert(!is_version_char(word@[i as int]));
            return false;
        }
        i += 1;
    }
    true
}

fn version_word(word: &str) -> (r: bool)
    ensures
        r == is_version(word@),
{
    if bytes_in(word) > 64 || !version_chars(word) {
        return false;
    }
    let numeric = take_before(take_before(word, '-').as_str(), '+');
    let pieces = split_text(numeric.as_str(), '.');
    let ghost numbers = views_of(pieces@);
    if pieces.len() != 3 {
        assert(numbers.len() != 3);
        return false;
    }
    assert(numbers[0] == pieces@[0]@ && numbers[1] == pieces@[1]@ && numbers[2] == pieces@[2]@);
    decimal_digits(pieces[0].as_str()) && decimal_digits(pieces[1].as_str()) && decimal_digits(
        pieces[2].as_str(),
    )
}

/// The first version among words.
pub open spec fn first_version(words: Seq<Seq<char>>) -> Option<Seq<char>>
    decreases words.len(),
{
    if words.len() == 0 {
        None
    } else if is_version(words[0]) {
        Some(words[0])
    } else {
        first_version(words.skip(1))
    }
}

/// The version that an output tells: the first word that is one, in an output that is a text.
pub open spec fn version_in(bytes: Seq<u8>) -> Option<Seq<char>> {
    match utf8_text(bytes) {
        Some(text) => first_version(words(text)),
        None => None,
    }
}

pub fn parse_version(bytes: &[u8]) -> (r: Option<String>)
    ensures
        maybe_text(r) == version_in(bytes@),
{
    let text = match text_of_bytes(bytes) {
        Some(text) => text,
        None => {
            return None;
        },
    };
    let list = split_words(text.as_str());
    let ghost all = views_of(list@);
    let mut i: usize = 0;
    assert(all.skip(0) == all);
    while i < list.len()
        invariant
            i <= list.len(),
            all == views_of(list@),
            version_in(bytes@) == first_version(all),
            first_version(all) == first_version(all.skip(i as int)),
        decreases list.len() - i,
    {
        proof {
            assert(all.skip(i as int)[0] == list@[i as int]@);
            assert(all.skip(i as int).skip(1) == all.skip(i + 1));
        }
        if version_word(list[i].as_str()) {
            return Some(list[i].clone());
        }
        i += 1;
    }
    None
}

/// What a probe finds, given where the executable is and what running it gave. A path that is no
/// text cannot be told. Only a process that did not start is a failure.
pub open spec fn is_probe_result(
    probe: ExecutableProbe,
    located: Result<Option<Option<Seq<char>>>, ProbeFailure>,
    output: Result<Seq<u8>, ProbeFailure>,
) -> bool {
    match located {
        Err(failure) => probe == ExecutableProbe::Unknown(failure),
        Ok(None) => probe is NotFound,
        Ok(Some(None)) => probe == ExecutableProbe::Unknown(ProbeFailure::Unavailable),
        Ok(Some(Some(path))) => match output {
            Err(ProbeFailure::LaunchFailed(code)) => probe == ExecutableProbe::Unknown(
                ProbeFailure::LaunchFailed(code),
            ),
            Err(ProbeFailure::NotExecutable) => probe == ExecutableProbe::Unknown(
                ProbeFailure::NotExecutable,
            ),
            Err(_) => probe matches ExecutableProbe::Installed(found) && found.version@.len() == 0
                && found.canonical_path@ == path,
            Ok(bytes) => probe matches ExecutableProbe::Installed(found) && found.canonical_path@
                == path && found.version@ == (match version_in(bytes) {
                Some(version) => version,
                None => Seq::empty(),
            }),
        },
    }
}

pub open spec fn located_view(located: Result<Option<Option<String>>, ProbeFailure>) -> Result<
    Option<Option<Seq<char>>>,
    ProbeFailure,
> {
    match located {
        Err(failure) => Err(failure),
        Ok(None) => Ok(None),
        Ok(Some(path)) => Ok(Some(maybe_text(path))),
    }
}

pub open spec fn output_view(output: Result<Vec<u8>, ProbeFailure>) -> Result<
    Seq<u8>,
    ProbeFailure,
> {
    match output {
        Ok(bytes) => Ok(bytes@),
        Err(failure) => Err(failure),
    }
}

/// Judges a probe. An executable is located as nothing, as a path, or as a path that is no text.
pub fn probe(
    located: Result<Option<Option<String>>, ProbeFailure>,
    output: Result<Vec<u8>, ProbeFailure>,
) -> (r: ExecutableProbe)
    ensures
        is_probe_result(r, located_view(located), output_view(output)),
{
    let canonical_path = match located {
        Ok(Some(Some(path))) => path,
        Ok(Some(None)) => {
            return ExecutableProbe::Unknown(ProbeFailure::Unavailable);
        },
        Ok(None) => {
            return ExecutableProbe::NotFound;
        },
        Err(reason) => {
            return ExecutableProbe::Unknown(reason);
        },
    };
    let version = match output {
        Ok(bytes) => match parse_version(bytes.as_slice()) {
            Some(version) => version,
            None => String::new(),
        },
        Err(ProbeFailure::LaunchFailed(code)) => {
            return ExecutableProbe::Unknown(ProbeFailure::LaunchFailed(code));
        },
        Err(ProbeFailure::NotExecutable) => {
            return ExecutableProbe::Unknown(ProbeFailure::NotExecutable);
        },
        Err(_) => String::new(),
    };
    proof {
        reveal_strlit("");
    }
    ExecutableProbe::Installed(ExecutableObservationV1 { version, canonical_path })
}

/// A path below a directory.
pub open spec fn joined(directory: Seq<char>, path: Seq<char>) -> Seq<char> {
    if directory.len() == 0 || directory.last() == '/' {
        directory + path
    } else {
        directory + "/"@ + path
    }
}

pub fn join_path(directory: &str, path: &str) -> (r: String)
    requires
        !is_absolute(path@),
    ensures
        r@ == joined(directory@, path@),
{
    let chars = chars_of(directory);
    let mut out = directory.to_owned();
    if chars.len() > 0 && chars[chars.len() - 1] != '/' {
        out.append("/");
    }
    out.append(path);
    out
}

/// How many steps a path is made of; a step to where one is counts only at the start.
pub open spec fn step_count(path: Seq<char>) -> int {
    path_steps(path).len() + (if split(path, '/')[0] == "."@ {
        1int
    } else {
        0
    })
}

/// Where an executable may be. A bare name is looked for in the search path, below the home
/// directory, and in the directories of the system.
pub open spec fn candidates_of(
    path: Seq<char>,
    search: Seq<Seq<char>>,
    home: Option<Seq<char>>,
    system: Seq<Seq<char>>,
) -> Seq<Seq<char>> {
    if is_absolute(path) || step_count(path) > 1 {
        seq![path]
    } else {
        let directories = match home {
            Some(home) => search.push(joined(home, ".local/bin"@)),
            None => search,
        };
        (directories + system).map_values(|directory: Seq<char>| joined(directory, path))
    }
}

fn push_joined(out: &mut Vec<String>, directories: &Vec<String>, path: &str)
    requires
        !is_absolute(path@),
    ensures
        views_of(final(out)@) == views_of(old(out)@) + views_of(directories@).map_values(
            |directory: Seq<char>| joined(directory, path@),
        ),
{
    let ghost start = views_of(out@);
    let ghost all = views_of(directories@);
    let ghost below = |directory: Seq<char>| joined(directory, path@);
    let mut i: usize = 0;
    assert(start + all.take(0).map_values(below) =~= start);
    while i < directories.len()
        invariant
            i <= directories.len(),
            !is_absolute(path@),
            all == views_of(directories@),
            below == (|directory: Seq<char>| joined(directory, path@)),
            views_of(out@) == start + all.take(i as int).map_values(below),
        decreases directories.len() - i,
    {
        let ghost before = views_of(out@);
        out.push(join_path(directories[i].as_str(), path));
        proof {
            assert(views_of(out@) =~= before.push(below(all[i as int])));
            assert(all.take(i + 1).map_values(below) =~= all.take(i as int).map_values(below).push(
                below(all[i as int]),
            ));
        }
        i += 1;
    }
    assert(all.take(i as int) == all);
}

pub fn candidates(path: &str, search: &Vec<String>, home: Option<&str>, system: &Vec<String>) -> (r:
    Vec<String>)
    ensures
        views_of(r@) == candidates_of(
            path@,
            views_of(search@),
            (match home {
                Some(home) => Some(home@),
                None => None,
            }),
            views_of(system@),
        ),
{
    let mut out: Vec<String> = Vec::new();
    let steps = steps_of(path);
    let parts = split_text(path, '/');
    assert(views_of(parts@)[0] == parts@[0]@);
    assert(steps@.len() == path_steps(path@).len());
    let dot = same(parts[0].as_str(), ".");
    if absolute(path) || steps.len() > 1 || (dot && steps.len() > 0) {
        out.push(path.to_owned());
        assert(views_of(out@) =~= seq![path@]);
        return out;
    }
    let ghost below = |directory: Seq<char>| joined(directory, path@);
    assert(views_of(out@) =~= Seq::<Seq<char>>::empty());
    push_joined(&mut out, search, path);
    let ghost mut directories = views_of(search@);
    assert(views_of(out@) =~= directories.map_values(below));
    match home {
        Some(home) => {
            proof {
                reveal_strlit(".local/bin");
            }
            let mut own: Vec<String> = Vec::new();
            own.push(join_path(home, ".local/bin"));
            assert(views_of(own@) =~= seq![joined(home@, ".local/bin"@)]);
            push_joined(&mut out, &own, path);
            proof {
                directories = directories.push(joined(home@, ".local/bin"@));
                assert(views_of(out@) =~= directories.map_values(below));
            }
        },
        None => {},
    }
    push_joined(&mut out, system, path);
    assert(views_of(out@) =~= (directories + views_of(system@)).map_values(below));
    out
}

/// What looking at a candidate shows.
#[derive(Debug)]
pub enum CandidateLook {
    Missing,
    Unreadable,
    /// Something is there. `is_canonical` tells that it has a canonical path; the target is a file
    /// or not, with its mode, where it can be looked at.
    There { is_canonical: bool, target: Option<(bool, u32)> },
}

pub open spec fn runnable_fault(target: Option<(bool, u32)>) -> Option<ProbeFailure> {
    match target {
        None => Some(ProbeFailure::Unavailable),
        Some((is_file, mode)) => if !is_file || mode & 0o111u32 == 0 {
            Some(ProbeFailure::NotExecutable)
        } else {
            None
        },
    }
}

/// A target can be run if it is a file that anyone may execute. Who may write it does not matter.
pub fn check_runnable(target: Option<(bool, u32)>) -> (r: Result<(), ProbeFailure>)
    ensures
        match runnable_fault(target) {
            Some(fault) => r matches Err(error) && error == fault,
            None => r is Ok,
        },
{
    match target {
        None => Err(ProbeFailure::Unavailable),
        Some((is_file, mode)) => if !is_file || mode & 0o111u32 == 0 {
            Err(ProbeFailure::NotExecutable)
        } else {
            Ok(())
        },
    }
}

/// What the candidates give, in order: the first that is there decides.
pub open spec fn located_at(looks: Seq<CandidateLook>) -> Result<Option<int>, ProbeFailure>
    decreases looks.len(),
{
    if looks.len() == 0 {
        Ok(None)
    } else {
        match located_at(looks.drop_last()) {
            Ok(None) => match looks.last() {
                CandidateLook::Missing => Ok(None),
                CandidateLook::Unreadable => Err(ProbeFailure::Unavailable),
                CandidateLook::There { is_canonical, target } => if !is_canonical {
                    Err(ProbeFailure::Unavailable)
                } else {
                    match runnable_fault(target) {
                        Some(fault) => Err(fault),
                        None => Ok(Some(looks.len() - 1)),
                    }
                },
            },
            decided => decided,
        }
    }
}

/// One look at a candidate: whether it is the executable, or the search goes on.
pub fn on_candidate(look: &CandidateLook) -> (r: Result<bool, ProbeFailure>)
    ensures
        match located_at(seq![*look]) {
            Ok(found) => r matches Ok(is_it) && is_it == (found is Some),
            Err(fault) => r matches Err(error) && error == fault,
        },
{
    proof {
        assert(seq![*look].drop_last() == Seq::<CandidateLook>::empty());
        assert(located_at(seq![*look].drop_last()) == Ok::<Option<int>, ProbeFailure>(None));
    }
    match look {
        CandidateLook::Missing => Ok(false),
        CandidateLook::Unreadable => Err(ProbeFailure::Unavailable),
        CandidateLook::There { is_canonical, target } => {
            if !*is_canonical {
                return Err(ProbeFailure::Unavailable);
            }
            match check_runnable(*target) {
                Ok(()) => Ok(true),
                Err(fault) => Err(fault),
            }
        },
    }
}

/// Which of the candidates is the executable.
pub fn resolve(looks: &Vec<CandidateLook>) -> (r: Result<Option<usize>, ProbeFailure>)
    ensures
        match located_at(looks@) {
            Ok(Some(i)) => r matches Ok(Some(k)) && k as int == i && k < looks@.len(),
            Ok(None) => r matches Ok(None),
            Err(fault) => r matches Err(error) && error == fault,
        },
{
    let mut i: usize = 0;
    assert(looks@.take(0) == Seq::<CandidateLook>::empty());
    while i < looks.len()
        invariant
            i <= looks.len(),
            located_at(looks@.take(i as int)) == Ok::<Option<int>, ProbeFailure>(None),
        decreases looks.len() - i,
    {
        let ghost so_far = looks@.take(i + 1);
        proof {
            assert(so_far.drop_last() == looks@.take(i as int));
            assert(so_far.last() == looks@[i as int]);
            let one = seq![looks@[i as int]];
            assert(one.drop_last() == Seq::<CandidateLook>::empty());
            assert(located_at(one.drop_last()) == Ok::<Option<int>, ProbeFailure>(None));
        }
        match on_candidate(&looks[i]) {
            Ok(false) => {},
            Ok(true) => {
                proof {
                    lemma_decided(looks@, i + 1);
                }
                return Ok(Some(i));
            },
            Err(fault) => {
                proof {
                    lemma_decided(looks@, i + 1);
                }
                return Err(fault);
            },
        }
        i += 1;
    }
    assert(looks@.take(i as int) == looks@);
    Ok(None)
}

proof fn lemma_decided(looks: Seq<CandidateLook>, k: int)
    requires
        0 <= k <= looks.len(),
        located_at(looks.take(k)) != Ok::<Option<int>, ProbeFailure>(None),
    ensures
        located_at(looks) == located_at(looks.take(k)),
    decreases looks.len() - k,
{
    if k < looks.len() {
        assert(looks.take(k + 1).drop_last() == looks.take(k));
        lemma_decided(looks, k + 1);
    } else {
        assert(looks.take(k) == looks);
    }
}

/// What several places give: the first executable that was found, else the first failure.
pub open spec fn engine_of(places: Seq<Result<Option<Seq<char>>, ProbeFailure>>) -> Result<
    Option<Seq<char>>,
    ProbeFailure,
>
    decreases places.len(),
{
    if places.len() == 0 {
        Ok(None)
    } else {
        match places[0] {
            Ok(Some(path)) => Ok(Some(path)),
            Ok(None) => engine_of(places.skip(1)),
            Err(fault) => match engine_of(places.skip(1)) {
                Ok(Some(path)) => Ok(Some(path)),
                _ => Err(fault),
            },
        }
    }
}

pub open spec fn place_view(place: Result<Option<String>, ProbeFailure>) -> Result<
    Option<Seq<char>>,
    ProbeFailure,
> {
    match place {
        Ok(path) => Ok(maybe_text(path)),
        Err(fault) => Err(fault),
    }
}

pub open spec fn places_view(places: Seq<Result<Option<String>, ProbeFailure>>) -> Seq<
    Result<Option<Seq<char>>, ProbeFailure>,
> {
    places.map_values(|place: Result<Option<String>, ProbeFailure>| place_view(place))
}

/// What an earlier failure leaves of a later result.
pub open spec fn after_failure(
    first: Option<ProbeFailure>,
    rest: Result<Option<Seq<char>>, ProbeFailure>,
) -> Result<Option<Seq<char>>, ProbeFailure> {
    match (first, rest) {
        (_, Ok(Some(path))) => Ok(Some(path)),
        (Some(fault), _) => Err(fault),
        (None, rest) => rest,
    }
}

/// The engine that was located: the application's own one comes before the separately installed
/// one.
pub fn located_codex_engine(places: &Vec<Result<Option<String>, ProbeFailure>>) -> (r: Result<
    Option<String>,
    ProbeFailure,
>)
    ensures
        place_view(r) == engine_of(places_view(places@)),
{
    let ghost all = places_view(places@);
    let mut first_failure: Option<ProbeFailure> = None;
    let mut i: usize = 0;
    assert(all.skip(0) == all);
    while i < places.len()
        invariant
            i <= places.len(),
            all == places_view(places@),
            engine_of(all) == after_failure(first_failure, engine_of(all.skip(i as int))),
        decreases places.len() - i,
    {
        proof {
            assert(all.skip(i as int)[0] == place_view(places@[i as int]));
            assert(all.skip(i as int).skip(1) == all.skip(i + 1));
        }
        match &places[i] {
            Ok(Some(path)) => {
                return Ok(Some(path.clone()));
            },
            Ok(None) => {},
            Err(fault) => {
                if first_failure.is_none() {
                    first_failure = Some(*fault);
                }
            },
        }
        i += 1;
    }
    match first_failure {
        Some(fault) => Err(fault),
        None => Ok(None),
    }
}

/// What starting the process gave.
#[derive(Clone, Copy, Debug, PartialEq, Eq, Structural)]
pub enum SpawnResult {
    Started,
    Refused(Option<i32>),
}

#[derive(Clone, Copy, Debug, PartialEq, Eq, Structural)]
pub enum SpawnStep {
    Run,
    /// Wait a little, look whether the file can still be run, and start it again.
    Retry,
    Fail(ProbeFailure),
}

/// How long a launch may be tried again under a timeout.
pub open spec fn launch_budget(timeout_ms: u64) -> u64 {
    if timeout_ms < LAUNCH_BUDGET_MS {
        timeout_ms
    } else {
        LAUNCH_BUDGET_MS
    }
}

/// Judges a start. Only an executable that is being written is tried again, and only for a while.
pub fn on_spawn(result: SpawnResult, busy: i32, elapsed_ms: u64, timeout_ms: u64) -> (r: SpawnStep)
    ensures
        r == (match result {
            SpawnResult::Started => SpawnStep::Run,
            SpawnResult::Refused(code) => if code == Some(busy) && elapsed_ms < launch_budget(
                timeout_ms,
            ) {
                SpawnStep::Retry
            } else {
                SpawnStep::Fail(ProbeFailure::LaunchFailed(code))
            },
        }),
{
    let budget: u64 = if timeout_ms < LAUNCH_BUDGET_MS {
        timeout_ms
    } else {
        LAUNCH_BUDGET_MS
    };
    match result {
        SpawnResult::Started => SpawnStep::Run,
        SpawnResult::Refused(code) => {
            let is_busy = match code {
                Some(code) => code == busy,
                None => false,
            };
            if is_busy && elapsed_ms < budget {
                SpawnStep::Retry
            } else {
                SpawnStep::Fail(ProbeFailure::LaunchFailed(code))
            }
        },
    }
}

#[derive(Clone, Copy, Debug, PartialEq, Eq, Structural)]
pub enum OutputStream {
    Standard,
    Diagnostic,
}

/// What reading from one of the process's outputs gave.
#[derive(Debug)]
pub enum PipeRead {
    End,
    Bytes(Vec<u8>),
    WouldBlock,
    Interrupted,
    Failed(Option<i32>),
}

/// Whether the process still runs.
#[derive(Clone, Copy, Debug, PartialEq, Eq, Structural)]
pub enum WaitResult {
    Running,
    Ended { success: bool },
    Unknown(Option<i32>),
}

#[derive(Clone, Copy, Debug, PartialEq, Eq, Structural)]
pub enum WaitStep {
    /// Wait a little and read again.
    Pause,
    /// Read what is left, then finish.
    Finish { success: bool },
    Fail(ProbeFailure),
}

/// The output of a process, as far as it was read.
#[derive(Debug)]
pub struct VersionOutput {
    pub out: Vec<u8>,
    pub err: Vec<u8>,
}

pub struct OutputView {
    pub out: Seq<u8>,
    pub err: Seq<u8>,
}

impl View for VersionOutput {
    type V = OutputView;

    open spec fn view(&self) -> OutputView {
        OutputView { out: self.out@, err: self.err@ }
    }
}

pub open spec fn with_bytes(output: OutputView, stream: OutputStream, bytes: Seq<u8>) -> OutputView {
    match stream {
        OutputStream::Standard => OutputView { out: output.out + bytes, ..output },
        OutputStream::Diagnostic => OutputView { err: output.err + bytes, ..output },
    }
}

impl VersionOutput {
    /// Both outputs together stay within the limit.
    pub open spec fn wf(&self) -> bool {
        self.out@.len() + self.err@.len() <= OUTPUT_LIMIT
    }

    pub fn new() -> (r: Self)
        ensures
            r.wf(),
            r@ == (OutputView { out: Seq::empty(), err: Seq::empty() }),
    {
        VersionOutput { out: Vec::new(), err: Vec::new() }
    }

    /// Takes one read. The result tells whether the output is to be read again at once.
    pub fn on_read(&mut self, stream: OutputStream, read: PipeRead) -> (r: Result<
        bool,
        ProbeFailure,
    >)
        requires
            old(self).wf(),
        ensures
            final(self).wf(),
            match read {
                PipeRead::Bytes(bytes) => if bytes@.len() == 0 {
                    r matches Ok(again) && !again && final(self)@ == old(self)@
                } else if old(self)@.out.len() + old(self)@.err.len() + bytes@.len()
                    > OUTPUT_LIMIT {
                    r matches Err(error) && error == ProbeFailure::OutputLimit && final(self)@
                        == old(self)@
                } else {
                    r matches Ok(again) && again && final(self)@ == with_bytes(
                        old(self)@,
                        stream,
                        bytes@,
                    )
                },
                PipeRead::End => r matches Ok(again) && !again && final(self)@ == old(self)@,
                PipeRead::WouldBlock => r matches Ok(again) && !again && final(self)@
                    == old(self)@,
                PipeRead::Interrupted => r matches Ok(again) && again && final(self)@
                    == old(self)@,
                PipeRead::Failed(code) => r matches Err(error) && error
                    == ProbeFailure::PipeReadFailed(code) && final(self)@ == old(self)@,
            },
    {
        match read {
            PipeRead::End => Ok(false),
            PipeRead::WouldBlock => Ok(false),
            PipeRead::Interrupted => Ok(true),
            PipeRead::Failed(code) => Err(ProbeFailure::PipeReadFailed(code)),
            PipeRead::Bytes(bytes) => {
                if bytes.len() == 0 {
                    return Ok(false);
                }
                let room: usize = OUTPUT_LIMIT - self.out.len() - self.err.len();
                if bytes.len() > room {
                    return Err(ProbeFailure::OutputLimit);
                }
                let mut bytes = bytes;
                match stream {
                    OutputStream::Standard => {
                        self.out.append(&mut bytes);
                    },
                    OutputStream::Diagnostic => {
                        self.err.append(&mut bytes);
                    },
                }
                Ok(true)
            },
        }
    }

    /// Judges a look at the process.
    pub fn on_wait(&self, wait: WaitResult, elapsed_ms: u64, timeout_ms: u64) -> (r: WaitStep)
        ensures
            r == (match wait {
                WaitResult::Ended { success } => WaitStep::Finish { success },
                WaitResult::Unknown(code) => WaitStep::Fail(ProbeFailure::WaitFailed(code)),
                WaitResult::Running => if elapsed_ms >= timeout_ms {
                    WaitStep::Fail(ProbeFailure::TimedOut)
                } else {
                    WaitStep::Pause
                },
            }),
    {
        match wait {
            WaitResult::Ended { success } => WaitStep::Finish { success },
            WaitResult::Unknown(code) => WaitStep::Fail(ProbeFailure::WaitFailed(code)),
            WaitResult::Running => if elapsed_ms >= timeout_ms {
                WaitStep::Fail(ProbeFailure::TimedOut)
            } else {
                WaitStep::Pause
            },
        }
    }

    /// What the process told: its output, or its error output where it wrote nothing else.
    pub fn finish(self, success: bool) -> (r: Result<Vec<u8>, ProbeFailure>)
        ensures
            output_view(r) == (if !success {
                Err(ProbeFailure::Failed)
            } else if self@.out.len() == 0 {
                Ok(self@.err)
            } else {
                Ok(self@.out)
            }),
    {
        if !success {
            return Err(ProbeFailure::Failed);
        }
        if self.out.len() == 0 {
            Ok(self.err)
        } else {
            Ok(self.out)
        }
    }
}

/// What a process printed never denies that it is installed: once it has started, every output and
/// every later failure gives the same installation, but for the version told.
pub proof fn versions_never_deny_an_installation(
    probe: ExecutableProbe,
    path: Seq<char>,
    output: Result<Seq<u8>, ProbeFailure>,
)
    requires
        is_probe_result(probe, Ok(Some(Some(path))), output),
        output matches Err(fault) ==> !(fault is LaunchFailed) && !(fault is NotExecutable),
    ensures
        probe matches ExecutableProbe::Installed(found) && found.canonical_path@ == path,
{
}

} // verus!
