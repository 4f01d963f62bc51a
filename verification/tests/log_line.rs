use gitty::repo::commit::Commit;
use gitty::utils::future::Error;

#[test]
fn log_line_has_four_fields() {
    let commit = Commit::build("abc123|Alice|2 days ago|fix bug".to_string()).unwrap();
    assert_eq!(commit.hash, "abc123");
    assert_eq!(commit.owner, "Alice");
    assert_eq!(commit.rel_time, "2 days ago");
    assert_eq!(commit.message, "fix bug");
    assert_eq!(commit.stats, None);
}

#[test]
fn message_keeps_further_separators() {
    let commit = Commit::build("h|o|t|m1|m2".to_string()).unwrap();
    assert_eq!(commit.hash, "h");
    assert_eq!(commit.owner, "o");
    assert_eq!(commit.rel_time, "t");
    assert_eq!(commit.message, "m1|m2");
}

#[test]
fn message_keeps_separators_at_its_ends() {
    let commit = Commit::build("h|o|t||a||".to_string()).unwrap();
    assert_eq!(commit.message, "|a||");
}

#[test]
fn fields_may_be_empty() {
    let commit = Commit::build("|||".to_string()).unwrap();
    assert_eq!(commit.hash, "");
    assert_eq!(commit.owner, "");
    assert_eq!(commit.rel_time, "");
    assert_eq!(commit.message, "");
}

#[test]
fn owner_is_kept_as_it_is_written() {
    let commit = Commit::build("1f|  Ünal ÖZ |now| x ".to_string()).unwrap();
    assert_eq!(commit.owner, "  Ünal ÖZ ");
    assert_eq!(commit.message, " x ");
}

#[test]
fn short_log_line_is_malformed() {
    let line = "abc123|Alice|2 days ago".to_string();
    assert_eq!(Commit::build(line.clone()), Err(Error::MalformedLogLine(line)));
}

#[test]
fn line_without_separator_is_malformed() {
    assert_eq!(Commit::build(String::new()), Err(Error::MalformedLogLine(String::new())));
    assert_eq!(
        Commit::build("abc123".to_string()),
        Err(Error::MalformedLogLine("abc123".to_string()))
    );
}

#[test]
fn from_chars_reads_the_same_commit() {
    let line = "abc123|Alice|2 days ago|fix|bug";
    let chars: Vec<char> = line.chars().collect();
    assert_eq!(Commit::from_chars(&chars), Commit::build(line.to_string()).ok());
    let short: Vec<char> = "a|b".chars().collect();
    assert_eq!(Commit::from_chars(&short), None);
}

#[test]
fn writing_a_commit_gives_its_line_back() {
    for line in ["abc123|Alice|2 days ago|fix bug", "h|o|t|m1|m2", "|||", "a|b|c||", "é|ü|ö|ä|"] {
        let commit = Commit::build(line.to_string()).unwrap();
        assert_eq!(commit.to_log_line(), line);
    }
}

#[test]
fn reading_a_written_commit_gives_the_commit_back() {
    let commit = Commit {
        hash: "abc123".to_string(),
        owner: "Alice".to_string(),
        rel_time: "2 days ago".to_string(),
        message: "a|b".to_string(),
        stats: None,
    };
    assert_eq!(Commit::build(commit.to_log_line()), Ok(commit));
}
