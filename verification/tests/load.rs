use perf_history::date::{Date, OptionalDate};
use perf_history::errors::Error;
use perf_history::collect::{add_run, collect_runs};
use perf_history::document::{read_run, run_from_file, Contents, Document, SourceFile};
use perf_history::load::InputData;
use perf_history::run::{Kind, TestRun};
use perf_history::strmap::StrMap;
use perf_history::summary::Change;
use perf_history::timing::{CrateSample, PhaseSample, Timing, FULL_PERCENT};

const WEEK: i64 = 604_800;
// Wednesday, 16 March 2016, 12:00:00.
const FIRST: i64 = 1_458_129_600;

fn sample(krate: &str, total: u64, phases: &[(&str, u64)]) -> CrateSample {
    let mut times = StrMap::new();
    for (name, time) in phases {
        times.insert(name.to_string(), PhaseSample { percent: 0, time: *time });
    }
    CrateSample { name: krate.to_string(), total, times, rss: None }
}

fn document(commit: &str, date: &str, times: Vec<CrateSample>) -> Contents {
    Contents::Document(Document { commit: commit.to_string(), date: date.to_string(), times })
}

fn file(name: &str, contents: Contents) -> SourceFile {
    SourceFile { name: name.to_string(), contents }
}

fn header(secs: i64) -> String {
    chrono::DateTime::from_timestamp(secs, 0)
        .unwrap()
        .format("%a %b %e %T %Y %z")
        .to_string()
}

fn weekly(times: &[u64], test: &str, krate: &str) -> Vec<TestRun> {
    times
        .iter()
        .enumerate()
        .map(|(i, time)| {
            TestRun::new(
                Date { secs: FIRST + (i as i64) * WEEK },
                format!("{}{}", test, i),
                &[sample(krate, *time, &[("p", *time)])],
                test,
            )
        })
        .collect()
}

fn weekly_files(times: &[u64], test: &str, krate: &str) -> Vec<SourceFile> {
    times
        .iter()
        .enumerate()
        .map(|(i, time)| {
            file(
                &format!("{}--{}.json", test, i),
                document(
                    &format!("{}{}", test, i),
                    &header(FIRST + (i as i64) * WEEK),
                    vec![sample(krate, *time, &[("p", *time)])],
                ),
            )
        })
        .collect()
}

fn growing(weeks: u32) -> Vec<u64> {
    (0..weeks)
        .map(|k| 1_000_000_000_000_000u64 / 10u64.pow(k) * 11u64.pow(k))
        .collect()
}

fn timing(run: &TestRun, krate: &str, phase: &str) -> Option<Timing> {
    run.by_crate.get(krate).and_then(|m| m.get(phase)).copied()
}

fn commits(runs: &[TestRun]) -> Vec<&str> {
    runs.iter().map(|r| r.commit.as_str()).collect()
}

fn names(set: &perf_history::strmap::StrSet) -> Vec<String> {
    let mut all: Vec<String> = (0..set.len()).map(|i| set.name(i).clone()).collect();
    all.sort();
    all
}

#[test]
fn a_file_gives_its_run() {
    let run = read_run(&file(
        "rustc--2016-08-06-21-59-30.json",
        document(
            "abc",
            "Sat Jan 2 13:58:57 2016 +0000",
            vec![sample("a", 7, &[("parse", 3)])],
        ),
    ))
    .ok()
    .unwrap();
    assert_eq!(run.commit, "abc");
    assert_eq!(run.date, Date { secs: 1451743137 });
    assert_eq!(run.kind, Kind::Rustc);
    assert_eq!(timing(&run, "a", "parse"), Some(Timing { percent: 0, time: 3, rss: None }));
    assert_eq!(timing(&run, "a", "total"), Some(Timing { percent: FULL_PERCENT, time: 7, rss: Some(0) }));
    assert_eq!(timing(&run, "total", "total"), Some(Timing { percent: 0, time: 7, rss: Some(0) }));
}

#[test]
fn the_file_name_dates_a_run_whose_header_does_not() {
    let run = read_run(&file(
        "regex--2016-08-06-21-59-30.json",
        document("abc", "2016-05-05", vec![sample("regex", 7, &[])]),
    ))
    .ok()
    .unwrap();
    assert_eq!(run.date, Date { secs: 1470520770 });
    assert_eq!(run.kind, Kind::Benchmarks);
    assert!(run.by_crate.get("total").is_none());
    let run = read_run(&file(
        "regex--2016-08-06-00-00.json",
        document("abc", "", vec![sample("regex", 7, &[])]),
    ))
    .ok()
    .unwrap();
    assert_eq!(run.date, Date { secs: 1470441600 });
}

#[test]
fn files_without_a_run_are_malformed() {
    assert_eq!(
        read_run(&file("rustc--2016-08-06-21-59-30.json", Contents::Empty)).err(),
        Some(Error::MalformedInput)
    );
    assert_eq!(
        read_run(&file("rustc--2016-08-06-21-59-30.json", Contents::Unreadable)).err(),
        Some(Error::MalformedInput)
    );
    assert_eq!(
        read_run(&file(
            "rustc--2016-08-06-21-59-30.json",
            document("abc", "Sat Jan 2 13:58:57 2016 +0000", vec![]),
        ))
        .err(),
        Some(Error::MalformedInput)
    );
    assert_eq!(
        read_run(&file(
            "rustc-2016-08-06-21-59-30.json",
            document("abc", "Sat Jan 2 13:58:57 2016 +0000", vec![sample("a", 1, &[])]),
        ))
        .err(),
        Some(Error::MalformedInput)
    );
}

#[test]
fn a_file_without_any_date_is_unresolvable() {
    assert_eq!(
        read_run(&file(
            "rustc--yesterday.json",
            document("abc", "some day", vec![sample("a", 1, &[])]),
        ))
        .err(),
        Some(Error::UnresolvableDate)
    );
    assert_eq!(
        read_run(&file("rustc--", document("abc", "", vec![sample("a", 1, &[])]))).err(),
        Some(Error::UnresolvableDate)
    );
}

#[test]
fn a_file_with_a_date_found_for_it() {
    let good = file(
        "regex--whenever.json",
        document("abc", "some day", vec![sample("regex", 7, &[("p", 7)])]),
    );
    let run = run_from_file(&good, Ok(Date { secs: 42 })).ok().unwrap();
    assert_eq!(run.date, Date { secs: 42 });
    assert_eq!(run.commit, "abc");
    assert_eq!(run.kind, Kind::Benchmarks);
    assert_eq!(timing(&run, "regex", "p").unwrap().time, 7);
    assert_eq!(
        run_from_file(&good, Err(Error::UnresolvableDate)).err(),
        Some(Error::UnresolvableDate)
    );
    assert_eq!(
        run_from_file(&good, Err(Error::NoData)).err(),
        Some(Error::UnresolvableDate)
    );
    // What is wrong with the file comes before the date.
    let empty = file("regex--whenever.json", Contents::Empty);
    assert_eq!(run_from_file(&empty, Ok(Date { secs: 42 })).err(), Some(Error::MalformedInput));
    let bare = file("regex.json", document("abc", "", vec![sample("regex", 7, &[])]));
    assert_eq!(
        run_from_file(&bare, Err(Error::UnresolvableDate)).err(),
        Some(Error::MalformedInput)
    );
}

#[test]
fn runs_of_one_commit_with_different_crates_are_united() {
    let mut runs = Vec::new();
    let first = TestRun::new(Date { secs: 1 }, "abc".to_string(), &[sample("a", 1, &[("p", 1)])], "regex");
    let other = TestRun::new(Date { secs: 2 }, "xyz".to_string(), &[sample("c", 3, &[])], "regex");
    let second = TestRun::new(Date { secs: 9 }, "abc".to_string(), &[sample("b", 2, &[("q", 2)])], "regex");
    assert!(!add_run(&mut runs, first));
    assert!(!add_run(&mut runs, other));
    assert!(add_run(&mut runs, second));
    assert_eq!(commits(&runs), vec!["abc", "xyz"]);
    // The run keeps the date it had.
    assert_eq!(runs[0].date, Date { secs: 1 });
    assert_eq!(runs[0].by_crate.len(), 2);
    assert_eq!(timing(&runs[0], "a", "p").unwrap().time, 1);
    assert_eq!(timing(&runs[0], "a", "total").unwrap().time, 1);
    assert_eq!(timing(&runs[0], "b", "q").unwrap().time, 2);
    assert_eq!(timing(&runs[0], "b", "total").unwrap().time, 2);
    assert_eq!(runs[1].by_crate.len(), 1);
    assert_eq!(timing(&runs[1], "c", "total").unwrap().time, 3);
}

#[test]
fn runs_of_one_commit_with_one_crate_keep_the_later_phases() {
    let mut runs = Vec::new();
    let first = TestRun::new(
        Date { secs: 1 },
        "abc".to_string(),
        &[sample("a", 1, &[("p", 1), ("old", 5)]), sample("keep", 4, &[])],
        "regex",
    );
    let second = TestRun::new(
        Date { secs: 9 },
        "abc".to_string(),
        &[sample("a", 2, &[("p", 2), ("new", 6)])],
        "regex",
    );
    add_run(&mut runs, first);
    assert!(add_run(&mut runs, second));
    assert_eq!(runs.len(), 1);
    assert_eq!(runs[0].by_crate.len(), 2);
    assert_eq!(runs[0].by_crate.get("a").unwrap().len(), 3);
    assert_eq!(timing(&runs[0], "a", "p").unwrap().time, 2);
    assert_eq!(timing(&runs[0], "a", "new").unwrap().time, 6);
    assert_eq!(timing(&runs[0], "a", "total").unwrap().time, 2);
    assert_eq!(timing(&runs[0], "a", "old"), None);
    assert_eq!(timing(&runs[0], "keep", "total").unwrap().time, 4);
}

#[test]
fn collecting_skips_counts_and_merges() {
    let files = vec![
        file("rustc--2016-08-06-00-00.json", document("abc", "", vec![sample("a", 1, &[])])),
        file("rustc--2016-08-07-00-00.json", Contents::Empty),
        file("regex--2016-08-06-00-00.json", document("abc", "", vec![sample("regex", 2, &[])])),
        file("rustc--2016-08-08-00-00.json", document("abc", "", vec![sample("b", 3, &[])])),
        file("rustc--2016-08-09-00-00.json", Contents::Unreadable),
        file("rustc--2016-08-09-00-00.json", document("def", "", vec![])),
        file("rustc--never.json", document("ghi", "", vec![sample("a", 1, &[])])),
        file("syntex--2016-08-05-00-00.json", document("def", "", vec![sample("syntex", 4, &[])])),
    ];
    let found = collect_runs(&files);
    assert_eq!(found.skipped, 4);
    assert_eq!(found.merged, 1);
    assert_eq!(commits(&found.rustc), vec!["abc"]);
    assert_eq!(commits(&found.benchmarks), vec!["abc", "def"]);
    // The two documents of one commit are one run, dated as the first.
    assert_eq!(found.rustc[0].date, Date { secs: 1470441600 });
    assert_eq!(found.rustc[0].by_crate.len(), 3);
    assert_eq!(timing(&found.rustc[0], "a", "total").unwrap().time, 1);
    assert_eq!(timing(&found.rustc[0], "b", "total").unwrap().time, 3);
    // Both documents have a total crate: the later one's stays.
    assert_eq!(timing(&found.rustc[0], "total", "total").unwrap().time, 3);
    // A commit is its own in each series.
    assert_eq!(timing(&found.benchmarks[0], "regex", "total").unwrap().time, 2);
    assert_eq!(found.benchmarks[1].date, Date { secs: 1470355200 });
}

#[test]
fn collecting_nothing_gives_nothing() {
    let found = collect_runs(&[]);
    assert_eq!(found.rustc.len(), 0);
    assert_eq!(found.benchmarks.len(), 0);
    assert_eq!(found.skipped, 0);
    assert_eq!(found.merged, 0);
}

#[test]
fn no_runs_are_no_data() {
    assert_eq!(InputData::new(Vec::new(), Vec::new()).err(), Some(Error::NoData));
    assert_eq!(InputData::from_files(&[]).err(), Some(Error::NoData));
    assert_eq!(
        InputData::from_files(&[file("rustc--2016-08-07-00-00.json", Contents::Empty)]).err(),
        Some(Error::NoData)
    );
}

#[test]
fn one_empty_series_is_an_invariant_violation() {
    assert_eq!(
        InputData::new(weekly(&growing(16), "rustc", "a"), Vec::new()).err(),
        Some(Error::InternalInvariantViolation)
    );
    assert_eq!(
        InputData::new(Vec::new(), weekly(&growing(16), "regex", "regex")).err(),
        Some(Error::InternalInvariantViolation)
    );
}

#[test]
fn too_little_history_is_an_invariant_violation() {
    assert_eq!(
        InputData::new(weekly(&growing(3), "rustc", "a"), weekly(&growing(3), "regex", "regex")).err(),
        Some(Error::InternalInvariantViolation)
    );
    // A series that ends early is compared at its last runs throughout.
    assert!(
        InputData::new(weekly(&growing(3), "rustc", "a"), weekly(&growing(16), "regex", "regex")).is_ok()
    );
    // One that starts late has weeks with both ends on its first run.
    let late: Vec<TestRun> = weekly(&growing(16), "rustc", "a").into_iter().skip(8).collect();
    assert_eq!(
        InputData::new(late, weekly(&growing(16), "regex", "regex")).err(),
        Some(Error::InternalInvariantViolation)
    );
    let files = vec![
        file("rustc--2016-08-06-00-00.json", document("abc", "", vec![sample("a", 1, &[])])),
        file("regex--2016-08-06-00-00.json", document("abc", "", vec![sample("regex", 2, &[])])),
    ];
    assert_eq!(InputData::from_files(&files).err(), Some(Error::InternalInvariantViolation));
}

#[test]
fn loaded_runs_are_in_order_of_date() {
    let mut rustc = weekly(&growing(16), "rustc", "a");
    rustc.reverse();
    let mut benchmarks = weekly(&growing(16), "regex", "regex");
    benchmarks.swap(0, 15);
    benchmarks.swap(3, 7);
    let data = InputData::new(rustc, benchmarks).ok().unwrap();
    for kind in [Kind::Rustc, Kind::Benchmarks] {
        let runs = data.by_kind(kind);
        assert_eq!(runs.len(), 16);
        for i in 0..16 {
            assert_eq!(runs[i].date, Date { secs: FIRST + (i as i64) * WEEK });
            assert_eq!(runs[i].kind, kind);
        }
        for pair in runs.windows(2) {
            assert!(pair[0].date.secs <= pair[1].date.secs);
        }
    }
    assert_eq!(data.by_kind(Kind::Rustc)[4].commit, "rustc4");
    assert_eq!(data.by_kind(Kind::Benchmarks)[0].commit, "regex0");
    assert_eq!(data.data_rustc.runs().len(), 16);
}

#[test]
fn loading_notes_names_and_the_last_date() {
    let rustc = weekly(&growing(16), "rustc", "a");
    let mut benchmarks = weekly(&growing(16), "regex", "regex");
    benchmarks.push(TestRun::new(
        Date { secs: FIRST + 15 * WEEK + 5 },
        "late".to_string(),
        &[sample("syntex", 1, &[("q", 1)])],
        "syntex",
    ));
    let data = InputData::new(rustc, benchmarks).ok().unwrap();
    assert_eq!(data.last_date, Date { secs: FIRST + 15 * WEEK + 5 });
    assert_eq!(names(&data.crate_list), vec!["a", "total"]);
    assert_eq!(names(&data.phase_list), vec!["p", "q", "total"]);
    assert_eq!(names(&data.benchmarks), vec!["regex", "syntex"]);
    assert!(data.crate_list.contains("total"));
    assert!(!data.crate_list.contains("regex"));
}

#[test]
fn whole_load_of_steady_growth() {
    let mut files = weekly_files(&growing(16), "rustc", "a");
    files.extend(weekly_files(&growing(16), "regex", "regex"));
    files.push(file("notes.txt", Contents::Unreadable));
    let data = InputData::from_files(&files).ok().unwrap();
    assert_eq!(data.last_date, Date { secs: FIRST + 15 * WEEK });
    assert_eq!(data.by_kind(Kind::Rustc).len(), 16);
    assert_eq!(data.by_kind(Kind::Benchmarks).len(), 16);
    for summary in [&data.summary_rustc, &data.summary_benchmarks] {
        assert_eq!(summary.summary.len(), 12);
        for week in &summary.summary {
            assert!(week.by_crate.get("regex").is_some());
        }
    }
    for week in &data.summary_rustc.summary {
        let found = *week.by_crate.get("a").unwrap().get("total").unwrap();
        assert!(!found.falling);
        assert_eq!(found.delta * 10, found.base);
        assert_eq!(week.by_crate.get("regex").unwrap().len(), 0);
    }
    for week in &data.summary_benchmarks.summary {
        let found = *week.by_crate.get("regex").unwrap().get("p").unwrap();
        assert_eq!(found.delta * 10, found.base);
    }
    let times = growing(16);
    assert_eq!(data.summary(Kind::Rustc).total.date, data.summary_rustc.total.date);
    assert_eq!(data.summary(Kind::Rustc).summary.len(), 12);
    assert!(data.summary(Kind::Benchmarks).total.by_crate.get("regex").is_some());
    assert!(data.summary(Kind::Rustc).total.by_crate.get("regex").is_none());
    assert_eq!(
        data.summary_rustc.total.by_crate.get("total").unwrap().get("total"),
        Some(&Change {
            falling: false,
            delta: (times[14] - times[1]) as u128,
            base: times[1] as u128,
        })
    );
}

#[test]
fn loading_twice_gives_the_same() {
    let build = || {
        let mut files = weekly_files(&growing(16), "rustc", "a");
        files.extend(weekly_files(&growing(16), "regex", "regex"));
        files.swap(2, 20);
        InputData::from_files(&files).ok().unwrap()
    };
    let first = build();
    let second = build();
    assert_eq!(first.last_date, second.last_date);
    assert_eq!(names(&first.crate_list), names(&second.crate_list));
    assert_eq!(names(&first.phase_list), names(&second.phase_list));
    assert_eq!(names(&first.benchmarks), names(&second.benchmarks));
    for kind in [Kind::Rustc, Kind::Benchmarks] {
        let a = first.by_kind(kind);
        let b = second.by_kind(kind);
        assert_eq!(a.len(), b.len());
        for i in 0..a.len() {
            assert!(a[i] == b[i]);
            assert_eq!(a[i].by_crate.len(), b[i].by_crate.len());
            for c in 0..a[i].by_crate.len() {
                let name = a[i].by_crate.key(c);
                let left = a[i].by_crate.value(c);
                let right = b[i].by_crate.get(name).unwrap();
                assert_eq!(left.len(), right.len());
                for p in 0..left.len() {
                    assert_eq!(Some(left.value(p)), right.get(left.key(p)));
                }
            }
        }
    }
    for (a, b) in [
        (&first.summary_rustc, &second.summary_rustc),
        (&first.summary_benchmarks, &second.summary_benchmarks),
    ] {
        assert_eq!(a.summary.len(), b.summary.len());
        for (x, y) in a.summary.iter().zip(b.summary.iter()).chain([(&a.total, &b.total)]) {
            assert_eq!(x.date, y.date);
            assert_eq!(x.by_crate.len(), y.by_crate.len());
            for c in 0..x.by_crate.len() {
                let left = x.by_crate.value(c);
                let right = y.by_crate.get(x.by_crate.key(c)).unwrap();
                assert_eq!(left.len(), right.len());
                for p in 0..left.len() {
                    assert_eq!(Some(left.value(p)), right.get(left.key(p)));
                }
            }
        }
    }
}

#[test]
fn ranges_cover_from_start_to_end() {
    let data = InputData::new(
        weekly(&growing(16), "rustc", "a"),
        weekly(&growing(16), "regex", "regex"),
    )
    .ok()
    .unwrap();
    let at = |week: i64, shift: i64| OptionalDate::Date(Date { secs: FIRST + week * WEEK + shift });
    let none = OptionalDate::Unspecified;

    let all = data.kinded_range(Kind::Rustc, &none, &none);
    assert_eq!(all.len(), 16);
    assert_eq!(all[0].commit, "rustc0");
    assert_eq!(all[15].commit, "rustc15");

    // Exact dates at both ends: both runs are in the range.
    let some = data.kinded_range(Kind::Rustc, &at(3, 0), &at(5, 0));
    assert_eq!(commits(some), vec!["rustc3", "rustc4", "rustc5"]);
    // Between runs, the start and the end both go on to the next run.
    let some = data.kinded_range(Kind::Rustc, &at(3, 1), &at(5, 1));
    assert_eq!(commits(some), vec!["rustc4", "rustc5", "rustc6"]);
    let some = data.kinded_range(Kind::Benchmarks, &at(3, -1), &at(3, -1));
    assert_eq!(commits(some), vec!["regex3"]);
    // Past the data at either end.
    let some = data.kinded_range(Kind::Rustc, &at(-9, 0), &at(0, 0));
    assert_eq!(commits(some), vec!["rustc0"]);
    let some = data.kinded_range(Kind::Rustc, &at(14, 1), &at(99, 0));
    assert_eq!(commits(some), vec!["rustc15"]);
    let some = data.kinded_range(Kind::Rustc, &at(99, 0), &none);
    assert_eq!(commits(some), vec!["rustc15"]);
    // A start behind the end gives nothing.
    let some = data.kinded_range(Kind::Rustc, &at(7, 0), &at(3, 0));
    assert_eq!(some.len(), 0);
}

#[test]
fn boundary_runs() {
    let data = InputData::new(
        weekly(&growing(16), "rustc", "a"),
        weekly(&growing(16), "regex", "regex"),
    )
    .ok()
    .unwrap();
    let at = |week: i64, shift: i64| OptionalDate::Date(Date { secs: FIRST + week * WEEK + shift });
    let none = OptionalDate::Unspecified;
    assert_eq!(data.kinded_start_day(Kind::Rustc, &none).commit, "rustc0");
    assert_eq!(data.kinded_end_day(Kind::Rustc, &none).commit, "rustc15");
    assert_eq!(data.kinded_start_day(Kind::Rustc, &at(3, 0)).commit, "rustc3");
    assert_eq!(data.kinded_start_day(Kind::Rustc, &at(3, 1)).commit, "rustc4");
    assert_eq!(data.kinded_end_day(Kind::Benchmarks, &at(3, 0)).commit, "regex3");
    assert_eq!(data.kinded_end_day(Kind::Benchmarks, &at(3, 1)).commit, "regex4");
    assert_eq!(data.kinded_end_day(Kind::Benchmarks, &at(99, 0)).commit, "regex15");
    assert_eq!(data.kinded_start_day(Kind::Benchmarks, &at(99, 0)).commit, "regex15");
    assert_eq!(data.kinded_start_day(Kind::Benchmarks, &at(-99, 0)).commit, "regex0");
}
