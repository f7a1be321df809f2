//! What a probe of an executable tells, and what an explicit check proves.

use vstd::prelude::*;
use crate::agents::claude_config::shell_quoted;
use crate::agents::discovery::{AgentCapability, EvidenceView};
use crate::agents::executable::{
    candidates, check_runnable, engine_of, first_version, is_version, joined, located_at,
    located_codex_engine, on_spawn, parse_version, place_view, places_view, probe, resolve,
    step_count, words, CandidateLook, ExecutableProbe, ProbeFailure, SpawnResult, SpawnStep,
    VersionOutput,
};
use crate::agents::native_claude_probe::{
    check_arguments, connection, first_of, is_attached, settings_of_check, CheckLook,
    ClaudeIngressEvidence, ClaudeNativeIngressProbe,
};
use crate::json::JsonView;
use crate::paths::{is_absolute, split};
use crate::text::{before_first, byte_len, is_decimal, is_digit, is_space, utf8_text, views_of};

verus! {

proof fn lemma_words_shape(s: Seq<char>)
    ensures
        s.len() > 0 && !is_space(s.last()) ==> words(s).len() > 0,
        forall|i: int| 0 <= i < words(s).len() ==> (#[trigger] words(s)[i]).len() > 0,
    decreases s.len(),
{
    if s.len() > 0 {
        lemma_words_shape(s.drop_last());
        if !is_space(s.last()) && s.len() > 1 && !is_space(s[s.len() - 2]) {
            assert(s.drop_last().last() == s[s.len() - 2]);
        }
    }
}

/// White space ends a word and is none; what stands without white space behind white space, or at
/// the start, is one more word. So a text has no other words.
pub proof fn words_stand_between_white_space(s: Seq<char>, word: Seq<char>, space: char)
    requires
        s.len() > 0 ==> is_space(s.last()),
        word.len() > 0,
        forall|i: int| 0 <= i < word.len() ==> !is_space(#[trigger] word[i]),
        is_space(space),
    ensures
        words(Seq::<char>::empty()).len() == 0,
        words(s + word) == words(s).push(word),
        words((s + word).push(space)) == words(s).push(word),
    decreases word.len(),
{
    let all = s + word;
    assert(all.push(space).drop_last() =~= all);
    assert(all.last() == word.last());
    assert(!is_space(word[word.len() - 1]));
    if word.len() == 1 {
        assert(all.drop_last() =~= s);
        assert(seq![all.last()] =~= word);
        if s.len() > 0 {
            assert(all[all.len() - 2] == s.last());
        }
    } else {
        let init = word.drop_last();
        assert forall|i: int| 0 <= i < init.len() implies !is_space(#[trigger] init[i]) by {
            assert(!is_space(word[i]));
        }
        words_stand_between_white_space(s, init, space);
        assert(all.drop_last() =~= s + init);
        assert(all[all.len() - 2] == word[word.len() - 2]);
        let before = words(s + init);
        assert(before.drop_last() =~= words(s));
        assert(init.push(word.last()) =~= word);
    }
}

/// The version that an output tells is its first word that is a version, and an output without one,
/// or that is no text, tells none.
pub proof fn the_first_version_is_told(bytes: &[u8], r: Option<String>)
    requires
        call_ensures(parse_version, (bytes,), r),
    ensures
        r matches Some(version) ==> utf8_text(bytes@) is Some && is_version(version@) && exists|k: int|
            0 <= k < words(utf8_text(bytes@)->0).len() && #[trigger] words(
                utf8_text(bytes@)->0,
            )[k] == version@ && forall|i: int|
                0 <= i < k ==> !is_version(#[trigger] words(utf8_text(bytes@)->0)[i]),
        r is None && utf8_text(bytes@) is Some ==> forall|i: int|
            0 <= i < words(utf8_text(bytes@)->0).len() ==> !is_version(
                #[trigger] words(utf8_text(bytes@)->0)[i],
            ),
{
    if let Some(text) = utf8_text(bytes@) {
        lemma_first_version(words(text));
    }
}

proof fn lemma_first_version(list: Seq<Seq<char>>)
    ensures
        match first_version(list) {
            Some(version) => is_version(version) && exists|k: int|
                0 <= k < list.len() && #[trigger] list[k] == version && forall|i: int|
                    0 <= i < k ==> !is_version(#[trigger] list[i]),
            None => forall|i: int| 0 <= i < list.len() ==> !is_version(#[trigger] list[i]),
        },
    decreases list.len(),
{
    if list.len() > 0 {
        let rest = list.skip(1);
        lemma_first_version(rest);
        assert forall|i: int| 1 <= i < list.len() implies rest[i - 1] == #[trigger] list[i] by {}
        if is_version(list[0]) {
            assert(list[0] == first_version(list)->0);
        } else {
            match first_version(rest) {
                Some(version) => {
                    let k = choose|k: int|
                        0 <= k < rest.len() && #[trigger] rest[k] == version && forall|i: int|
                            0 <= i < k ==> !is_version(#[trigger] rest[i]);
                    assert(list[k + 1] == version);
                    assert forall|i: int| 0 <= i < k + 1 implies !is_version(
                        #[trigger] list[i],
                    ) by {
                        if i > 0 {
                            assert(rest[i - 1] == list[i]);
                        }
                    }
                },
                None => {
                    assert forall|i: int| 0 <= i < list.len() implies !is_version(
                        #[trigger] list[i],
                    ) by {
                        if i > 0 {
                            assert(rest[i - 1] == list[i]);
                        }
                    }
                },
            }
        }
    }
}

proof fn lemma_no_mark(s: Seq<char>, c: char)
    requires
        !s.contains(c),
    ensures
        before_first(s, c) == s,
        split(s, c) == seq![s],
    decreases s.len(),
{
    if s.len() > 0 {
        assert(s.contains(s[0]) && s.contains(s[s.len() - 1]));
        let rest = s.skip(1);
        assert(!rest.contains(c)) by {
            if rest.contains(c) {
                let i = choose|i: int| 0 <= i < rest.len() && rest[i] == c;
                assert(s[i + 1] == c);
            }
        }
        lemma_no_mark_before(s, c);
        let init = s.drop_last();
        assert(!init.contains(c)) by {
            if init.contains(c) {
                let i = choose|i: int| 0 <= i < init.len() && init[i] == c;
                assert(s[i] == c);
            }
        }
        lemma_no_mark(init, c);
        let before = split(init, c);
        assert(before.drop_last() =~= Seq::<Seq<char>>::empty());
        assert(init.push(s.last()) =~= s);
        assert(split(s, c) =~= seq![s]);
    } else {
        assert(s =~= Seq::<char>::empty());
    }
}

proof fn lemma_no_mark_before(s: Seq<char>, c: char)
    requires
        !s.contains(c),
    ensures
        before_first(s, c) == s,
    decreases s.len(),
{
    if s.len() > 0 {
        assert(s.contains(s[0]));
        let rest = s.skip(1);
        assert(!rest.contains(c)) by {
            if rest.contains(c) {
                let i = choose|i: int| 0 <= i < rest.len() && rest[i] == c;
                assert(s[i + 1] == c);
            }
        }
        lemma_no_mark_before(rest, c);
        assert(seq![s[0]] + rest =~= s);
    } else {
        assert(s =~= Seq::<char>::empty());
    }
}

proof fn lemma_split_more(s: Seq<char>, c: char, part: Seq<char>)
    requires
        !part.contains(c),
    ensures
        split(s.push(c) + part, c) == split(s, c).push(part),
    decreases part.len(),
{
    let all = s.push(c) + part;
    if part.len() == 0 {
        assert(all =~= s.push(c));
        assert(all.drop_last() =~= s);
        assert(part =~= Seq::<char>::empty());
    } else {
        let init = part.drop_last();
        assert(!init.contains(c)) by {
            if init.contains(c) {
                let i = choose|i: int| 0 <= i < init.len() && init[i] == c;
                assert(part[i] == c);
            }
        }
        lemma_split_more(s, c, init);
        assert(all.drop_last() =~= s.push(c) + init);
        assert(all.last() == part.last());
        assert(part.contains(part[part.len() - 1]));
        let before = split(s.push(c) + init, c);
        assert(before.drop_last() =~= split(s, c));
        assert(init.push(part.last()) =~= part);
    }
}

/// Three numbers between dots are a version where they are short enough; two, or four, are none.
pub proof fn versions_are_three_numbers(a: Seq<char>, b: Seq<char>, c: Seq<char>, d: Seq<char>)
    requires
        is_decimal(a) && is_decimal(b) && is_decimal(c) && is_decimal(d),
    ensures
        ({
            let three = (a.push('.') + b).push('.') + c;
            is_version(three) <==> byte_len(three) <= 64
        }),
        !is_version(a),
        !is_version(a.push('.') + b),
        !is_version(((a.push('.') + b).push('.') + c).push('.') + d),
{
    let two = a.push('.') + b;
    let three = two.push('.') + c;
    let four = three.push('.') + d;
    lemma_digits(a);
    lemma_digits(b);
    lemma_digits(c);
    lemma_digits(d);
    lemma_plain(a);
    lemma_plain(two);
    lemma_plain(three);
    lemma_plain(four);
    lemma_no_mark(a, '.');
    lemma_split_more(a, '.', b);
    lemma_split_more(two, '.', c);
    lemma_split_more(three, '.', d);
    let parts = split(three, '.');
    assert(parts[0] == a && parts[1] == b && parts[2] == c);
    assert forall|i: int| 0 <= i < three.len() implies crate::agents::executable::is_version_char(
        #[trigger] three[i],
    ) by {
        assert(is_digit(three[i]) || three[i] == '.');
    }
}

/// A text of digits and dots.
pub open spec fn is_dotted(s: Seq<char>) -> bool {
    forall|i: int| 0 <= i < s.len() ==> is_digit(#[trigger] s[i]) || s[i] == '.'
}

proof fn lemma_digits(s: Seq<char>)
    requires
        is_decimal(s),
    ensures
        !s.contains('.'),
        is_dotted(s),
{
    if s.contains('.') {
        let i = choose|i: int| 0 <= i < s.len() && s[i] == '.';
        assert(is_digit(s[i]));
    }
}

proof fn lemma_plain(s: Seq<char>)
    requires
        is_dotted(s),
    ensures
        before_first(before_first(s, '-'), '+') == s,
{
    assert(!s.contains('-')) by {
        if s.contains('-') {
            let i = choose|i: int| 0 <= i < s.len() && s[i] == '-';
            assert(is_digit(s[i]) || s[i] == '.');
        }
    }
    assert(!s.contains('+')) by {
        if s.contains('+') {
            let i = choose|i: int| 0 <= i < s.len() && s[i] == '+';
            assert(is_digit(s[i]) || s[i] == '.');
        }
    }
    lemma_no_mark_before(s, '-');
    lemma_no_mark_before(s, '+');
}

/// What a probe says: an executable that is nowhere is not found; one that could not be started, or
/// whose place cannot be told, is unknown; one that was started is installed at its place, with the
/// version that it printed, or none where it printed none or failed later.
pub proof fn started_processes_are_installed(
    located: Result<Option<Option<String>>, ProbeFailure>,
    output: Result<Vec<u8>, ProbeFailure>,
    r: ExecutableProbe,
    version: Option<String>,
    bytes: &[u8],
)
    requires
        call_ensures(probe, (located, output), r),
        call_ensures(parse_version, (bytes,), version),
        output matches Ok(printed) ==> printed@ == bytes@,
    ensures
        r is NotFound <==> located matches Ok(None),
        located matches Err(failure) ==> r == ExecutableProbe::Unknown(failure),
        r matches ExecutableProbe::Installed(found) ==> (located matches Ok(Some(Some(path)))
            && found.canonical_path@ == path@),
        (located matches Ok(Some(Some(_)))) ==> (r is Unknown <==> (output matches Err(failure) && (
        failure is LaunchFailed || failure is NotExecutable))),
        r matches ExecutableProbe::Installed(found) ==> (output is Ok ==> match version {
            Some(told) => found.version@ == told@,
            None => found.version@.len() == 0,
        }) && (output is Err ==> found.version@.len() == 0),
{
}

/// Where a bare name is looked for: in the search path, below the home, and in the system's
/// directories, in this order. A path is only itself.
pub proof fn names_are_looked_for_in_order(
    path: &str,
    search: &Vec<String>,
    home: Option<&str>,
    system: &Vec<String>,
    r: Vec<String>,
    k: int,
)
    requires
        call_ensures(candidates, (path, search, home, system), r),
    ensures
        is_absolute(path@) || step_count(path@) > 1 ==> r@.len() == 1 && r@[0]@ == path@,
        !is_absolute(path@) && step_count(path@) <= 1 ==> {
            let middle = if home is Some {
                1int
            } else {
                0
            };
            &&& r@.len() == search@.len() + middle + system@.len()
            &&& 0 <= k < search@.len() && search@[k]@.len() > 0 && search@[k]@.last() != '/'
                ==> r@[k]@ == search@[k]@ + "/"@ + path@
            &&& home matches Some(home) ==> (home@.len() > 0 && home@.last() != '/'
                ==> r@[search@.len() as int]@ == home@ + "/"@ + ".local/bin"@ + "/"@ + path@)
            &&& 0 <= k < system@.len() && system@[k]@.len() > 0 && system@[k]@.last() != '/'
                ==> r@[search@.len() + middle + k]@ == system@[k]@ + "/"@ + path@
        },
{
    let all = views_of(r@);
    assert(all.len() == r@.len());
    assert forall|i: int| 0 <= i < r@.len() implies all[i] == (#[trigger] r@[i])@ by {}
    assert(views_of(search@).len() == search@.len());
    assert(views_of(system@).len() == system@.len());
    if is_absolute(path@) || step_count(path@) > 1 {
        assert(all[0] == path@);
    } else {
        let middle = if home is Some {
            1int
        } else {
            0
        };
        if 0 <= k < search@.len() {
            assert(all[k] == joined(search@[k]@, path@));
        }
        if let Some(home) = home {
            let base = joined(home@, ".local/bin"@);
            assert(all[search@.len() as int] == joined(base, path@));
            reveal_strlit(".local/bin");
            if home@.len() > 0 && home@.last() != '/' {
                assert(base.last() == 'n');
            }
        }
        if 0 <= k < system@.len() {
            assert(all[search@.len() + middle + k] == joined(system@[k]@, path@));
        }
    }
}

/// Whether what is there can be run: it has a canonical path, and is a file that someone may
/// execute.
pub open spec fn can_run(look: CandidateLook) -> bool {
    look matches CandidateLook::There { is_canonical, target } && is_canonical && (
    target matches Some((is_file, mode)) && is_file && mode & 0o111u32 != 0)
}

proof fn lemma_located(looks: Seq<CandidateLook>)
    ensures
        match located_at(looks) {
            Ok(Some(at)) => 0 <= at < looks.len() && can_run(looks[at]) && forall|i: int|
                0 <= i < at ==> (#[trigger] looks[i]) is Missing,
            Ok(None) => forall|i: int| 0 <= i < looks.len() ==> (#[trigger] looks[i]) is Missing,
            Err(_) => exists|at: int|
                0 <= at < looks.len() && !((#[trigger] looks[at]) is Missing) && !can_run(looks[at])
                    && forall|i: int| 0 <= i < at ==> (#[trigger] looks[i]) is Missing,
        },
    decreases looks.len(),
{
    if looks.len() > 0 {
        let init = looks.drop_last();
        lemma_located(init);
        assert(looks[looks.len() - 1] == looks.last());
        assert forall|i: int| 0 <= i < init.len() implies init[i] == #[trigger] looks[i] by {}
        match located_at(init) {
            Err(_) => {
                let at = choose|at: int|
                    0 <= at < init.len() && !((#[trigger] init[at]) is Missing) && !can_run(
                        init[at],
                    ) && forall|i: int| 0 <= i < at ==> (#[trigger] init[i]) is Missing;
                assert(!(looks[at] is Missing));
                assert forall|i: int| 0 <= i < at implies (#[trigger] looks[i]) is Missing by {
                    assert(init[i] is Missing);
                }
            },
            Ok(Some(at)) => {
                assert forall|i: int| 0 <= i < at implies (#[trigger] looks[i]) is Missing by {
                    assert(init[i] is Missing);
                }
            },
            Ok(None) => {
                assert forall|i: int| 0 <= i < init.len() implies (
                #[trigger] looks[i]) is Missing by {
                    assert(init[i] is Missing);
                }
            },
        }
    }
}

/// The first place where something is decides: it is the executable where it can be run, and else
/// the search has failed. Nothing is found only where nothing is anywhere.
pub proof fn the_first_that_is_there_decides(
    looks: &Vec<CandidateLook>,
    r: Result<Option<usize>, ProbeFailure>,
    at: int,
)
    requires
        call_ensures(resolve, (looks,), r),
    ensures
        r matches Ok(Some(k)) ==> k < looks@.len() && can_run(looks@[k as int]) && forall|i: int|
            0 <= i < k ==> (#[trigger] looks@[i]) is Missing,
        r matches Ok(None) ==> forall|i: int|
            0 <= i < looks@.len() ==> (#[trigger] looks@[i]) is Missing,
        0 <= at < looks@.len() && !(looks@[at] is Missing) && !can_run(looks@[at]) && (forall|i: int|
            0 <= i < at ==> (#[trigger] looks@[i]) is Missing) ==> r is Err,
        0 <= at < looks@.len() && can_run(looks@[at]) && (forall|i: int|
            0 <= i < at ==> (#[trigger] looks@[i]) is Missing) ==> r == Ok::<
            Option<usize>,
            ProbeFailure,
        >(Some(at as usize)),
{
    lemma_located(looks@);
    if let Ok(Some(k)) = r {
        if 0 <= at < looks@.len() && at < k {
            assert(looks@[at] is Missing);
        }
    }
    if r is Err {
        let k = choose|k: int|
            0 <= k < looks@.len() && !((#[trigger] looks@[k]) is Missing) && !can_run(looks@[k])
                && forall|i: int| 0 <= i < k ==> (#[trigger] looks@[i]) is Missing;
        if 0 <= at < looks@.len() {
            if at < k {
                assert(looks@[at] is Missing);
            }
        }
    }
    assert(looks.len() == looks@.len());
}

/// A target can be run exactly where it is a file with an execute bit of anyone.
pub proof fn runnable_files_have_an_execute_bit(
    target: Option<(bool, u32)>,
    r: Result<(), ProbeFailure>,
)
    requires
        call_ensures(check_runnable, (target,), r),
    ensures
        r is Ok <==> (target matches Some((is_file, mode)) && is_file && mode & 0o111u32 != 0),
        target is None ==> r == Err::<(), _>(ProbeFailure::Unavailable),
        target is Some && r is Err ==> r == Err::<(), _>(ProbeFailure::NotExecutable),
{
}

/// The engine is the first that was found in any place, whatever failed before; only where none was
/// found is the first failure told.
pub proof fn any_found_engine_counts(
    places: &Vec<Result<Option<String>, ProbeFailure>>,
    r: Result<Option<String>, ProbeFailure>,
    at: int,
)
    requires
        call_ensures(located_codex_engine, (places,), r),
        0 <= at < places@.len(),
    ensures
        (places@[at] matches Ok(Some(path))) && (forall|i: int|
            0 <= i < at ==> !((#[trigger] places@[i]) matches Ok(Some(_)))) ==> (r matches Ok(
            Some(found),
        ) && found@ == places@[at]->Ok_0->0@),
        (forall|i: int| 0 <= i < places@.len() ==> !((#[trigger] places@[i]) matches Ok(Some(_))))
            && (places@[at] is Err) && (forall|i: int|
            0 <= i < at ==> (#[trigger] places@[i]) is Ok) ==> (r matches Err(fault) && fault
            == places@[at]->Err_0),
        (forall|i: int| 0 <= i < places@.len() ==> ((#[trigger] places@[i]) matches Ok(None))) ==> (
        r matches Ok(None)),
{
    lemma_engine(places@, at);
}

proof fn lemma_engine(places: Seq<Result<Option<String>, ProbeFailure>>, at: int)
    requires
        0 <= at < places.len(),
    ensures
        (places[at] matches Ok(Some(path))) && (forall|i: int|
            0 <= i < at ==> !((#[trigger] places[i]) matches Ok(Some(_)))) ==> engine_of(
            places_view(places),
        ) == Ok::<Option<Seq<char>>, ProbeFailure>(Some(places[at]->Ok_0->0@)),
        (forall|i: int| 0 <= i < places.len() ==> !((#[trigger] places[i]) matches Ok(Some(_)))) && (
        places[at] is Err) && (forall|i: int| 0 <= i < at ==> (#[trigger] places[i]) is Ok)
            ==> engine_of(places_view(places)) == Err::<Option<Seq<char>>, _>(places[at]->Err_0),
        (forall|i: int| 0 <= i < places.len() ==> ((#[trigger] places[i]) matches Ok(None)))
            ==> engine_of(places_view(places)) == Ok::<Option<Seq<char>>, ProbeFailure>(None),
        (forall|i: int| 0 <= i < places.len() ==> !((#[trigger] places[i]) matches Ok(Some(_))))
            ==> !(engine_of(places_view(places)) matches Ok(Some(_))),
    decreases places.len(),
{
    let rest = places.skip(1);
    let views = places_view(places);
    assert(views[0] == place_view(places[0]));
    assert(places_view(rest) =~= views.skip(1));
    assert forall|i: int| 1 <= i < places.len() implies rest[i - 1] == #[trigger] places[i] by {}
    if rest.len() == 0 {
        assert(engine_of(views.skip(1)) == Ok::<Option<Seq<char>>, ProbeFailure>(None));
    } else {
        let next = if at > 0 {
            at - 1
        } else {
            0
        };
        lemma_engine(rest, next);
    }
    if (forall|i: int| 0 <= i < places.len() ==> !((#[trigger] places[i]) matches Ok(Some(_)))) {
        assert(!(places[0] matches Ok(Some(_))));
        assert forall|i: int| 0 <= i < rest.len() implies !((#[trigger] rest[i]) matches Ok(
            Some(_),
        )) by {
            assert(!(places[i + 1] matches Ok(Some(_))));
        }
    }
    if (forall|i: int| 0 <= i < places.len() ==> ((#[trigger] places[i]) matches Ok(None))) {
        assert(places[0] matches Ok(None));
        assert forall|i: int| 0 <= i < rest.len() implies ((#[trigger] rest[i]) matches Ok(
            None,
        )) by {
            assert(places[i + 1] matches Ok(None));
        }
    }
    if at > 0 {
        if (forall|i: int| 0 <= i < at ==> !((#[trigger] places[i]) matches Ok(Some(_)))) {
            assert(!(places[0] matches Ok(Some(_))));
            assert forall|i: int| 0 <= i < at - 1 implies !((#[trigger] rest[i]) matches Ok(
                Some(_),
            )) by {
                assert(!(places[i + 1] matches Ok(Some(_))));
            }
        }
        if (forall|i: int| 0 <= i < at ==> (#[trigger] places[i]) is Ok) {
            assert(places[0] is Ok);
            assert forall|i: int| 0 <= i < at - 1 implies (#[trigger] rest[i]) is Ok by {
                assert(places[i + 1] is Ok);
            }
        }
    }
}

/// A start is tried again only while the file is busy, and for at most a tenth of a second or the
/// whole timeout, whichever is shorter.
pub proof fn only_busy_files_are_started_again(
    result: SpawnResult,
    busy: i32,
    elapsed_ms: u64,
    timeout_ms: u64,
    r: SpawnStep,
)
    requires
        call_ensures(on_spawn, (result, busy, elapsed_ms, timeout_ms), r),
    ensures
        r is Run <==> result is Started,
        r is Retry <==> result == SpawnResult::Refused(Some(busy)) && elapsed_ms < 100 && elapsed_ms
            < timeout_ms,
        r matches SpawnStep::Fail(failure) ==> (result matches SpawnResult::Refused(code) && failure
            == ProbeFailure::LaunchFailed(code)),
{
}

/// What a process that ended well has told is what it printed, and its diagnostics only where it
/// printed nothing.
pub proof fn diagnostics_count_only_alone(
    output: VersionOutput,
    success: bool,
    r: Result<Vec<u8>, ProbeFailure>,
)
    requires
        call_ensures(VersionOutput::finish, (output, success), r),
    ensures
        r is Ok <==> success,
        r matches Ok(bytes) ==> (output.out@.len() > 0 ==> bytes@ == output.out@) && (
        output.out@.len() == 0 ==> bytes@ == output.err@),
{
    assert(output@.out == output.out@);
}

/// The settings of a check send it to the check's own endpoint, with the check's own helper and
/// model, and nothing else.
pub proof fn checks_go_to_their_own_endpoint(
    helper: Seq<char>,
    verb: Seq<char>,
    endpoint: Seq<char>,
)
    ensures
        ({
            let settings = settings_of_check(helper, verb, endpoint);
            let members = settings->Object_0;
            let env = members["env"@]->Object_0;
            &&& settings is Object && members["env"@] is Object
            &&& members.dom() == set!["apiKeyHelper"@, "env"@]
            &&& env.dom() == set!["ANTHROPIC_BASE_URL"@, "ANTHROPIC_MODEL"@]
            &&& env["ANTHROPIC_BASE_URL"@] == JsonView::Str(endpoint)
            &&& env["ANTHROPIC_MODEL"@] == JsonView::Str("hiroute/0011223344556677"@)
            &&& members["apiKeyHelper"@] == JsonView::Str(
                shell_quoted(helper) + " "@ + shell_quoted(verb) + " "@ + shell_quoted(connection()),
            )
        }),
{
    reveal_strlit("apiKeyHelper");
    reveal_strlit("env");
    reveal_strlit("ANTHROPIC_BASE_URL");
    reveal_strlit("ANTHROPIC_MODEL");
    assert("apiKeyHelper"@.len() != "env"@.len());
    assert("ANTHROPIC_BASE_URL"@.len() != "ANTHROPIC_MODEL"@.len());
    let members = settings_of_check(helper, verb, endpoint)->Object_0;
    let env = members["env"@]->Object_0;
    assert(members.dom() =~= set!["apiKeyHelper"@, "env"@]);
    assert(env.dom() =~= set!["ANTHROPIC_BASE_URL"@, "ANTHROPIC_MODEL"@]);
}

/// A check is run without the user's settings, with its own; only a collaboration brings a tool and
/// a plugin.
pub proof fn checks_are_run_with_their_own_settings(
    settings: &str,
    plugin: Option<&str>,
    r: Vec<String>,
)
    requires
        call_ensures(check_arguments, (settings, plugin), r),
    ensures
        r@.len() == if plugin is Some {
            24int
        } else {
            18
        },
        r@[3]@ == "--setting-sources"@ && r@[4]@ == ""@,
        r@[5]@ == "--settings"@ && r@[6]@ == settings@,
        r@[7]@ == "--tools"@ && r@[8]@ == (if plugin is Some {
            "Bash"@
        } else {
            ""@
        }),
        plugin matches Some(plugin) ==> r@[17]@ == "--plugin-dir"@ && r@[18]@ == plugin@,
{
    let all = views_of(r@);
    assert(all.len() == r@.len());
    assert forall|i: int| 0 <= i < r@.len() implies all[i] == (#[trigger] r@[i])@ by {}
    assert(all[3] == r@[3]@ && all[4] == r@[4]@ && all[5] == r@[5]@ && all[6] == r@[6]@);
    assert(all[7] == r@[7]@ && all[8] == r@[8]@);
    if plugin is Some {
        assert(all[17] == r@[17]@ && all[18] == r@[18]@);
    }
}

/// A check succeeds only with a process that ended well after an authenticated message, with its
/// challenge complete; it may run for three quarters of a minute and print an eighth of a mebibyte.
pub proof fn checks_end_within_their_bounds(
    state: &ClaudeNativeIngressProbe,
    look: CheckLook,
    complete: bool,
    r: Result<bool, &'static str>,
)
    requires
        call_ensures(ClaudeNativeIngressProbe::on_look, (state, look, complete), r),
    ensures
        r matches Ok(true) ==> (look matches CheckLook::Ended { success } && success)
            && state.authenticated && complete,
        (look matches CheckLook::Ended { success } && success) && state.authenticated && complete
            ==> (r matches Ok(true)),
        (r matches Ok(false)) <==> (look matches CheckLook::Running { elapsed_ms, printed }
            && elapsed_ms <= 45_000 && printed <= 131_072),
{
}

/// Evidence that applies proves authentication, and in a collaboration also that skills are loaded
/// and the command is run; every other capability keeps its state. Evidence that does not apply
/// changes nothing.
pub proof fn evidence_proves_what_was_checked(
    evidence: ClaudeIngressEvidence,
    applies: bool,
    digest: Seq<char>,
    list: Seq<EvidenceView>,
    new_digest: Seq<char>,
    new_list: Seq<EvidenceView>,
    at: int,
)
    requires
        is_attached(evidence, applies, digest, list, new_digest, new_list),
        0 <= at < list.len(),
    ensures
        new_list.len() == list.len(),
        new_list[at].capability == list[at].capability,
        !applies ==> new_list == list && new_digest == digest,
        applies && list[at].capability is IngressAuthentication && (forall|i: int|
            0 <= i < at ==> !((#[trigger] list[i]).capability is IngressAuthentication))
            ==> new_list[at].state is Proven && new_list[at].reason is None
            && new_list[at].observed_at_unix_ms == evidence.observed_at,
        new_list[at].state is Proven && !(list[at].state is Proven) ==> applies && (
        list[at].capability is IngressAuthentication || (evidence.collaboration && (
        list[at].capability is SkillLoading || list[at].capability is TrustedCliExecution))),
        !(list[at].capability is IngressAuthentication) && !(list[at].capability is SkillLoading)
            && !(list[at].capability is TrustedCliExecution) ==> new_list[at].state
            == list[at].state && new_list[at].reason == list[at].reason,
{
    lemma_first_of(list, AgentCapability::IngressAuthentication);
    if applies && list[at].capability is IngressAuthentication && (forall|i: int|
        0 <= i < at ==> !((#[trigger] list[i]).capability is IngressAuthentication)) {
        match first_of(list, AgentCapability::IngressAuthentication) {
            Some(k) => {
                if k < at {
                    assert(!(list[k].capability is IngressAuthentication));
                } else if at < k {
                    assert(list[at].capability != AgentCapability::IngressAuthentication);
                }
            },
            None => {
                assert(list[at].capability != AgentCapability::IngressAuthentication);
            },
        }
    }
}

proof fn lemma_first_of(list: Seq<EvidenceView>, capability: AgentCapability)
    ensures
        match first_of(list, capability) {
            Some(k) => 0 <= k < list.len() && list[k].capability == capability && forall|i: int|
                0 <= i < k ==> (#[trigger] list[i]).capability != capability,
            None => forall|i: int| 0 <= i < list.len() ==> (#[trigger] list[i]).capability
                != capability,
        },
    decreases list.len(),
{
    if list.len() > 0 {
        let init = list.drop_last();
        lemma_first_of(init, capability);
        assert(list[list.len() - 1] == list.last());
        assert forall|i: int| 0 <= i < init.len() implies init[i] == #[trigger] list[i] by {}
    }
}

} // verus!
