use gitty::repo::commit::stats::CommitStats;
use gitty::repo::stats::{Stats, SUMMARY_PATTERN};
use gitty::utils::future::Error;

fn unparsable(line: &str) -> Result<Stats, Error> {
    Err(Error::UnparsableDiffStat(line.to_string()))
}

fn text(group: &str) -> Option<String> {
    Some(group.to_string())
}

#[test]
fn summary_line_with_both_clauses() {
    assert_eq!(
        Stats::parse("2 files changed, 8 insertions(+), 4 deletions(-)"),
        Ok(Stats { insertions: 8, deletions: 4 })
    );
}

#[test]
fn summary_line_in_the_singular() {
    assert_eq!(
        Stats::parse("1 file changed, 3 insertions(+), 1 deletion(-)"),
        Ok(Stats { insertions: 3, deletions: 1 })
    );
    assert_eq!(
        Stats::parse("1 file changed, 1 insertion(+)"),
        Ok(Stats { insertions: 1, deletions: 0 })
    );
}

#[test]
fn summary_line_with_changed_files_only() {
    assert_eq!(Stats::parse("3 files changed"), Ok(Stats { insertions: 0, deletions: 0 }));
    assert_eq!(Stats::parse("1 file changed"), Ok(Stats { insertions: 0, deletions: 0 }));
}

#[test]
fn summary_line_with_one_clause_missing() {
    assert_eq!(
        Stats::parse("4 files changed, 12 deletions(-)"),
        Ok(Stats { insertions: 0, deletions: 12 })
    );
    assert_eq!(
        Stats::parse("4 files changed, 12 insertions(+)"),
        Ok(Stats { insertions: 12, deletions: 0 })
    );
}

#[test]
fn summary_line_with_clauses_out_of_order() {
    assert_eq!(
        Stats::parse("1 file changed, 4 deletions(-), 3 insertions(+)"),
        Ok(Stats { insertions: 0, deletions: 4 })
    );
}

#[test]
fn summary_line_inside_other_text() {
    assert_eq!(
        Stats::parse("total: 2 files changed, 5 insertions(+) and more"),
        Ok(Stats { insertions: 5, deletions: 0 })
    );
}

#[test]
fn line_without_the_clause_on_files_is_unparsable() {
    assert_eq!(Stats::parse("nothing to see"), unparsable("nothing to see"));
    assert_eq!(Stats::parse(""), unparsable(""));
    assert_eq!(Stats::parse("8 insertions(+), 4 deletions(-)"), unparsable("8 insertions(+), 4 deletions(-)"));
    assert_eq!(Stats::parse("files changed"), unparsable("files changed"));
}

#[test]
fn count_that_is_no_32_bit_number_counts_as_zero() {
    assert_eq!(
        Stats::parse("1 file changed, 4294967296 insertions(+), 4294967295 deletions(-)"),
        Ok(Stats { insertions: 0, deletions: u32::MAX })
    );
    assert_eq!(
        Stats::parse("1 file changed, ٣ insertions(+), 2 deletions(-)"),
        Ok(Stats { insertions: 0, deletions: 2 })
    );
}

#[test]
fn captured_groups_give_the_counts() {
    let groups = vec![text("1 file changed, 3 insertions(+)"), text("1"), text("3"), None];
    assert_eq!(Stats::from_captures(&groups), Stats { insertions: 3, deletions: 0 });
    let groups = vec![text("x"), text("1"), None, text("17")];
    assert_eq!(Stats::from_captures(&groups), Stats { insertions: 0, deletions: 17 });
}

#[test]
fn absent_groups_count_as_zero() {
    let groups = vec![text("1 file changed"), text("1"), None, None];
    assert_eq!(Stats::from_captures(&groups), Stats { insertions: 0, deletions: 0 });
    assert_eq!(Stats::from_captures(&vec![text("x")]), Stats { insertions: 0, deletions: 0 });
    assert_eq!(Stats::from_captures(&Vec::new()), Stats { insertions: 0, deletions: 0 });
    assert_eq!(
        Stats::from_captures(&vec![None, None, text("5")]),
        Stats { insertions: 5, deletions: 0 }
    );
}

#[test]
fn captured_text_that_is_no_number_counts_as_zero() {
    let groups = vec![None, None, text("many"), text("-3")];
    assert_eq!(Stats::from_captures(&groups), Stats { insertions: 0, deletions: 0 });
}

#[test]
fn report_is_read_from_its_last_line() {
    let report = "commit abc123\nAuthor: Alice\n\n    fix bug\n\n src/a.rs | 4 ++--\n src/b.rs | 8 ++++++--\n 2 files changed, 8 insertions(+), 4 deletions(-)\n";
    assert_eq!(Stats::from_report(report), Ok(Stats { insertions: 8, deletions: 4 }));
}

#[test]
fn report_ignores_summaries_before_the_last_line() {
    let report = "1 file changed, 1 insertion(+)\n 2 files changed, 2 deletions(-)";
    assert_eq!(Stats::from_report(report), Ok(Stats { insertions: 0, deletions: 2 }));
}

#[test]
fn report_passes_over_empty_lines_at_its_end() {
    let report = " 1 file changed, 3 insertions(+), 1 deletion(-)\n\n\r\n\n";
    assert_eq!(Stats::from_report(report), Ok(Stats { insertions: 3, deletions: 1 }));
}

#[test]
fn report_whose_last_line_is_no_summary_is_unparsable() {
    assert_eq!(
        Stats::from_report(" 1 file changed, 1 insertion(+)\n  trailing note  \n"),
        unparsable("trailing note")
    );
    assert_eq!(Stats::from_report(" 1 file changed\n   \n"), unparsable(""));
}

#[test]
fn empty_report_is_unparsable() {
    assert_eq!(Stats::from_report(""), unparsable(""));
    assert_eq!(Stats::from_report("\n\n"), unparsable(""));
}

#[test]
fn pattern_names_its_groups() {
    assert!(SUMMARY_PATTERN.contains("(?P<insertions>"));
    assert!(SUMMARY_PATTERN.contains("(?P<deletions>"));
}

#[test]
fn stats_setters_change_one_count() {
    let stats = Stats::default();
    assert_eq!(stats, Stats { insertions: 0, deletions: 0 });
    let stats = stats.set_insertions(8);
    assert_eq!(stats, Stats { insertions: 8, deletions: 0 });
    let stats = stats.set_deletions(4);
    assert_eq!(stats, Stats { insertions: 8, deletions: 4 });
    assert_eq!(stats.set_insertions(1), Stats { insertions: 1, deletions: 4 });
}

#[test]
fn commit_stats_setters_change_one_count() {
    let stats = CommitStats::default().set_insertions(8).set_deletions(4);
    assert_eq!(format!("{:?}", stats), "CommitStats { insertions: 8, deletions: 4 }");
    let stats = stats.set_insertions(0);
    assert_eq!(format!("{:?}", stats), "CommitStats { insertions: 0, deletions: 4 }");
    assert_eq!(
        format!("{:?}", CommitStats::default()),
        "CommitStats { insertions: 0, deletions: 0 }"
    );
}
