use hiroute::agents::executable::{
    candidates, check_runnable, join_path, located_codex_engine, on_candidate, on_spawn,
    parse_version, probe, resolve, split_words, CandidateLook, ExecutableProbe, OutputStream,
    PipeRead, ProbeFailure, SpawnResult, SpawnStep, VersionOutput, WaitResult, WaitStep,
    OUTPUT_LIMIT,
};

fn located(path: &str) -> Result<Option<Option<String>>, ProbeFailure> {
    Ok(Some(Some(path.to_owned())))
}

fn version(probe: ExecutableProbe) -> String {
    match probe {
        ExecutableProbe::Installed(found) => found.version,
        other => panic!("{other:?}"),
    }
}

#[test]
fn agent_probe_missing_and_failed_probe_are_distinct() {
    assert!(matches!(probe(Ok(None), Ok(vec![])), ExecutableProbe::NotFound));
    assert!(version(probe(located("/bin/agent"), Err(ProbeFailure::Failed))).is_empty());
}

#[test]
fn agent_probe_version_is_diagnostic_and_private_environment_is_not_inherited() {
    let output = b"codex-cli 99.123.456-beta.1\n".to_vec();
    assert_eq!(version(probe(located("/bin/agent"), Ok(output))), "99.123.456-beta.1");
}

#[test]
fn agent_probe_timeout_kills_process_group_without_waiting_for_output_eof() {
    let output = VersionOutput::new();
    assert_eq!(output.on_wait(WaitResult::Running, 79, 80), WaitStep::Pause);
    assert_eq!(
        output.on_wait(WaitResult::Running, 80, 80),
        WaitStep::Fail(ProbeFailure::TimedOut)
    );
    assert!(version(probe(located("/bin/agent"), Err(ProbeFailure::TimedOut))).is_empty());
}

#[test]
fn agent_probe_output_is_bounded() {
    let mut output = VersionOutput::new();
    let chunk = || PipeRead::Bytes(vec![b'x'; 4096]);
    for _ in 0..16 {
        assert_eq!(output.on_read(OutputStream::Standard, chunk()), Ok(true));
    }
    assert_eq!(output.out.len(), OUTPUT_LIMIT);
    assert_eq!(
        output.on_read(OutputStream::Diagnostic, PipeRead::Bytes(vec![1])),
        Err(ProbeFailure::OutputLimit)
    );
    assert!(version(probe(located("/bin/agent"), Err(ProbeFailure::OutputLimit))).is_empty());
}

#[test]
fn group_writable_executable_and_ancestor_are_allowed() {
    assert!(check_runnable(Some((true, 0o100777))).is_ok());
    let output = format!("{} 2.1.231 (agent)\n", "tool").into_bytes();
    assert_eq!(version(probe(located("/bin/agent"), Ok(output))), "2.1.231");
}

#[test]
fn non_executable_file_is_reported_without_launching() {
    let look = CandidateLook::There { is_canonical: true, target: Some((true, 0o100600)) };
    let failure = on_candidate(&look).unwrap_err();
    assert!(matches!(
        probe(Err(failure), Ok(vec![])),
        ExecutableProbe::Unknown(ProbeFailure::NotExecutable)
    ));
}

#[test]
fn agent_probe_busy_executable_stays_bounded_and_succeeds_after_writer_closes() {
    let busy = SpawnResult::Refused(Some(26));
    assert_eq!(on_spawn(busy, 26, 99, 1000), SpawnStep::Retry);
    assert_eq!(
        on_spawn(busy, 26, 100, 1000),
        SpawnStep::Fail(ProbeFailure::LaunchFailed(Some(26)))
    );
    assert_eq!(
        on_spawn(busy, 26, 50, 40),
        SpawnStep::Fail(ProbeFailure::LaunchFailed(Some(26)))
    );
    assert_eq!(
        on_spawn(SpawnResult::Refused(Some(2)), 26, 0, 1000),
        SpawnStep::Fail(ProbeFailure::LaunchFailed(Some(2)))
    );
    assert_eq!(on_spawn(SpawnResult::Started, 26, 0, 1000), SpawnStep::Run);
    assert!(matches!(
        probe(located("/bin/agent"), Err(ProbeFailure::LaunchFailed(Some(26)))),
        ExecutableProbe::Unknown(ProbeFailure::LaunchFailed(Some(26)))
    ));
    assert!(matches!(
        probe(located("/bin/agent"), Ok(b"codex-cli 99.1.2\n".to_vec())),
        ExecutableProbe::Installed(_)
    ));
}

#[test]
fn versions_are_the_first_word_with_three_numbers() {
    for (text, expected) in [
        ("codex 1.2.3", Some("1.2.3")),
        ("1.2 1.2.3+build.7 4.5.6", Some("1.2.3+build.7")),
        ("v1.2.3", None),
        ("1.2.3.4", None),
        ("1..3", None),
        ("1.2.x", None),
        ("1.2.3(x)", None),
        ("", None),
    ] {
        assert_eq!(parse_version(text.as_bytes()).as_deref(), expected, "{text}");
    }
    assert_eq!(parse_version(&[0xff, b' ', b'1']), None);
    let long = format!("1.2.3-{}", "x".repeat(59));
    assert_eq!(long.len(), 65);
    assert_eq!(parse_version(long.as_bytes()), None);
    assert_eq!(parse_version(&long.as_bytes()[..64]).as_deref(), Some(&long[..64]));
    assert_eq!(split_words(" a\t\nbc  d"), vec!["a", "bc", "d"]);
}

#[test]
fn outputs_are_read_to_their_end() {
    let mut output = VersionOutput::new();
    assert_eq!(output.on_read(OutputStream::Diagnostic, PipeRead::Bytes(b"err".to_vec())), Ok(true));
    assert_eq!(output.on_read(OutputStream::Standard, PipeRead::WouldBlock), Ok(false));
    assert_eq!(output.on_read(OutputStream::Standard, PipeRead::Interrupted), Ok(true));
    assert_eq!(output.on_read(OutputStream::Standard, PipeRead::End), Ok(false));
    assert_eq!(
        output.on_read(OutputStream::Standard, PipeRead::Failed(Some(5))),
        Err(ProbeFailure::PipeReadFailed(Some(5)))
    );
    assert_eq!(
        output.on_wait(WaitResult::Unknown(Some(10)), 0, 1),
        WaitStep::Fail(ProbeFailure::WaitFailed(Some(10)))
    );
    assert_eq!(
        output.on_wait(WaitResult::Ended { success: true }, 9, 1),
        WaitStep::Finish { success: true }
    );
    assert_eq!(output.finish(true), Ok(b"err".to_vec()));
    let mut both = VersionOutput::new();
    let _ = both.on_read(OutputStream::Diagnostic, PipeRead::Bytes(b"err".to_vec()));
    let _ = both.on_read(OutputStream::Standard, PipeRead::Bytes(b"out".to_vec()));
    assert_eq!(both.finish(true), Ok(b"out".to_vec()));
    assert_eq!(VersionOutput::new().finish(false), Err(ProbeFailure::Failed));
}

fn texts(list: &[&str]) -> Vec<String> {
    list.iter().map(|text| text.to_string()).collect()
}

#[test]
fn bare_names_are_searched_for() {
    let search = texts(&["/a", "/b/"]);
    let system = texts(&["/usr/local/bin", "/usr/bin"]);
    assert_eq!(
        candidates("codex", &search, Some("/home/me"), &system),
        texts(&[
            "/a/codex",
            "/b/codex",
            "/home/me/.local/bin/codex",
            "/usr/local/bin/codex",
            "/usr/bin/codex",
        ])
    );
    assert_eq!(
        candidates("codex", &vec![], None, &system),
        texts(&["/usr/local/bin/codex", "/usr/bin/codex"])
    );
    for direct in ["/opt/codex", "./codex", "bin/codex"] {
        assert_eq!(candidates(direct, &search, Some("/h"), &system), texts(&[direct]));
    }
    assert_eq!(join_path("", "x"), "x");
}

#[test]
fn the_first_candidate_that_is_there_decides() {
    let good = || CandidateLook::There { is_canonical: true, target: Some((true, 0o755)) };
    assert_eq!(resolve(&vec![CandidateLook::Missing, good(), CandidateLook::Unreadable]), Ok(Some(1)));
    assert_eq!(resolve(&vec![CandidateLook::Missing]), Ok(None));
    assert_eq!(
        resolve(&vec![CandidateLook::Unreadable, good()]),
        Err(ProbeFailure::Unavailable)
    );
    assert_eq!(
        resolve(&vec![CandidateLook::There { is_canonical: false, target: None }]),
        Err(ProbeFailure::Unavailable)
    );
    assert_eq!(check_runnable(None), Err(ProbeFailure::Unavailable));
    assert_eq!(check_runnable(Some((false, 0o755))), Err(ProbeFailure::NotExecutable));
    assert!(matches!(
        probe(Ok(Some(None)), Ok(vec![])),
        ExecutableProbe::Unknown(ProbeFailure::Unavailable)
    ));
}

#[test]
fn engines_are_taken_from_the_first_place_that_has_one() {
    let here = |path: &str| Ok(Some(path.to_owned()));
    assert_eq!(
        located_codex_engine(&vec![Err(ProbeFailure::NotExecutable), here("/cli")]),
        Ok(Some("/cli".to_owned()))
    );
    assert_eq!(
        located_codex_engine(&vec![here("/app"), here("/cli")]),
        Ok(Some("/app".to_owned()))
    );
    assert_eq!(
        located_codex_engine(&vec![
            Err(ProbeFailure::NotExecutable),
            Ok(None),
            Err(ProbeFailure::Unavailable)
        ]),
        Err(ProbeFailure::NotExecutable)
    );
    assert_eq!(located_codex_engine(&vec![Ok(None)]), Ok(None));
}
