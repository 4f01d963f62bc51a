use gitty::repo::commit::Commit;
use gitty::repo::stats::Stats;
use gitty::utils::future::{AsyncCommand, Error};
use gitty::utils::git::{CommandOutput, GitCommand};
use gitty::GitLog;

fn printed(stdout: &[u8]) -> CommandOutput {
    CommandOutput { status: Some(0), stdout: stdout.to_vec(), stderr: Vec::new() }
}

fn failed(stderr: &[u8]) -> CommandOutput {
    CommandOutput { status: Some(128), stdout: b"partial output".to_vec(), stderr: stderr.to_vec() }
}

fn commit(hash: &str) -> Commit {
    Commit::build(format!("{hash}|Alice|now|message")).unwrap()
}

#[test]
fn git_command_keeps_its_working_tree() {
    let command = GitCommand::new("/work/tree".to_string());
    assert_eq!(command.path(), "/work/tree");
}

#[test]
fn output_of_a_successful_run_is_its_text() {
    assert_eq!(GitCommand::read(printed(b"128\n")), Ok("128\n".to_string()));
    assert_eq!(GitCommand::read(printed(b"")), Ok(String::new()));
    assert_eq!(GitCommand::read(printed("é|ü".as_bytes())), Ok("é|ü".to_string()));
}

#[test]
fn output_of_a_successful_run_ignores_the_error_stream() {
    let output =
        CommandOutput { status: Some(0), stdout: b"ok".to_vec(), stderr: b"warning".to_vec() };
    assert_eq!(GitCommand::read(output), Ok("ok".to_string()));
}

#[test]
fn failed_run_carries_its_error_stream() {
    assert_eq!(
        GitCommand::read(failed(b"fatal: not a git repository\n")),
        Err(Error::CommandFailed("fatal: not a git repository\n".to_string()))
    );
    assert_eq!(GitCommand::read(failed(b"")), Err(Error::CommandFailed(String::new())));
}

#[test]
fn failed_run_with_a_broken_error_stream_still_carries_text() {
    assert_eq!(
        GitCommand::read(failed(b"bad \xff byte")),
        Err(Error::CommandFailed("bad \u{fffd} byte".to_string()))
    );
}

#[test]
fn failed_run_wins_over_broken_output() {
    let output = CommandOutput { status: Some(1), stdout: vec![0xff], stderr: b"no".to_vec() };
    assert_eq!(GitCommand::read(output), Err(Error::CommandFailed("no".to_string())));
}

#[test]
fn only_the_exit_status_zero_is_success() {
    for status in [Some(1), Some(-1), Some(128), Some(i32::MAX), Some(i32::MIN), None] {
        let output = CommandOutput { status, stdout: b"text".to_vec(), stderr: b"why".to_vec() };
        assert_eq!(GitCommand::read(output), Err(Error::CommandFailed("why".to_string())));
    }
}

#[test]
fn output_that_is_no_utf8_is_an_encoding_error() {
    assert_eq!(GitCommand::read(printed(b"12\xff")), Err(Error::EncodingError));
    assert_eq!(GitCommand::read(printed(b"\xc3")), Err(Error::EncodingError));
    assert_eq!(GitCommand::read(printed(b"\xed\xa0\x80")), Err(Error::EncodingError));
}

#[test]
fn async_command_defaults_to_the_tool() {
    let command = AsyncCommand::default();
    assert_eq!(command.cmd, "git");
    assert_eq!(command.path, "");
    assert!(command.args.is_empty());
}

#[test]
fn async_command_is_built_step_by_step() {
    let command = AsyncCommand::new("hg".to_string());
    assert_eq!(command.cmd, "hg");
    assert_eq!(command.path, "");
    assert!(command.args.is_empty());
    let command = command.with_dir("/work/tree".to_string());
    assert_eq!(command.path, "/work/tree");
    let command = command.with_args(vec!["show".to_string(), "--stat".to_string()]);
    assert_eq!(command.args, vec!["show", "--stat"]);
    let command = command.with_args(vec!["abc123".to_string()]).with_args(Vec::new());
    assert_eq!(command.args, vec!["show", "--stat", "abc123"]);
    assert_eq!(command.cmd, "hg");
    assert_eq!(command.path, "/work/tree");
}

#[test]
fn stats_command_shows_the_commit() {
    let command = commit("abc123").stats_command("/work/tree".to_string());
    assert_eq!(command.cmd, "git");
    assert_eq!(command.path, "/work/tree");
    assert_eq!(command.args, vec!["show", "--stat", "abc123"]);
}

#[test]
fn stats_of_a_commit_come_from_the_report() {
    let report = b"commit abc123\n\n a.rs | 2 +-\n 1 file changed, 1 insertion(+), 1 deletion(-)\n";
    assert_eq!(
        commit("abc123").get_stats(printed(report)),
        Ok(Stats { insertions: 1, deletions: 1 })
    );
}

#[test]
fn stats_of_a_commit_fail_with_the_run() {
    assert_eq!(
        commit("abc123").get_stats(failed(b"fatal: bad object abc123\n")),
        Err(Error::CommandFailed("fatal: bad object abc123\n".to_string()))
    );
    assert_eq!(commit("abc123").get_stats(printed(b"\xff\xfe")), Err(Error::EncodingError));
    assert_eq!(
        commit("abc123").get_stats(printed(b"commit abc123\n")),
        Err(Error::UnparsableDiffStat("commit abc123".to_string()))
    );
}

#[test]
fn git_log_defaults() {
    let log = GitLog::default();
    assert_eq!(log.path(), ".");
    assert_eq!(
        log.args(),
        vec!["log", "--oneline", "--skip=0", "--max-count=10", "--pretty=format:\"%h|%an|%ar|%s\""]
    );
    let log = GitLog::new("/work/tree".to_string());
    assert_eq!(log.path(), "/work/tree");
    assert_eq!(log.args(), GitLog::default().args());
}

#[test]
fn git_log_skip_and_max_count_change_one_number() {
    let log = GitLog::new("/work/tree".to_string()).skip(20).max_count(5);
    assert_eq!(log.path(), "/work/tree");
    assert_eq!(
        log.args(),
        vec!["log", "--oneline", "--skip=20", "--max-count=5", "--pretty=format:\"%h|%an|%ar|%s\""]
    );
    let log = log.max_count(u32::MAX).skip(0);
    assert_eq!(log.args()[2], "--skip=0");
    assert_eq!(log.args()[3], "--max-count=4294967295");
}

#[test]
fn git_log_reads_lines() {
    assert_eq!(
        GitLog::read(printed(b"\"a|A|now|x\"\n\"b|B|now|y\"\n")),
        Ok(vec!["\"a|A|now|x\"".to_string(), "\"b|B|now|y\"".to_string()])
    );
    assert_eq!(GitLog::read(printed(b"")), Ok(Vec::new()));
}

#[test]
fn git_log_fails_with_the_run() {
    assert_eq!(
        GitLog::read(failed(b"fatal: bad revision\n")),
        Err(Error::CommandFailed("fatal: bad revision\n".to_string()))
    );
    assert_eq!(GitLog::read(printed(b"\x80")), Err(Error::EncodingError));
}

#[test]
fn errors_say_what_happened() {
    assert_eq!(Error::CommandFailed("fatal: x".to_string()).message(), "command failed: fatal: x");
    assert_eq!(Error::EncodingError.message(), "output is not valid UTF-8");
    assert_eq!(Error::ParseFailure("many".to_string()).message(), "not a number: many");
    assert_eq!(Error::MalformedLogLine("a|b".to_string()).message(), "malformed log line: a|b");
    assert_eq!(
        Error::UnparsableDiffStat("nothing".to_string()).message(),
        "unparsable diff stat: nothing"
    );
    assert_eq!(Error::DanglingReference.message(), "reference to a commit that is not there");
    assert_eq!(Error::NotFound("Carol".to_string()).message(), "no merges found for author: Carol");
}
