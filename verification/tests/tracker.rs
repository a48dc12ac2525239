use witd::types::File;
use witd::witd::{Command, Witd};

fn file(path: &str, created_at: u128, modified_at: u128) -> File {
    let name = path.rsplit('/').next().unwrap().to_string();
    let extension = match name.rsplit_once('.') {
        Some((_, e)) => e.to_string(),
        None => String::new(),
    };
    let directory = match path.rsplit_once('/') {
        Some((d, _)) => d.to_string(),
        None => String::new(),
    };
    File { created_at, directory, extension, modified_at, name, path: path.to_string() }
}

fn per_file() -> Witd {
    Witd::new(Command::parse("foreach file in ./w do echo NAME in DIR end").unwrap())
}

fn per_directory() -> Witd {
    Witd::new(Command::parse("directory ./w do make -C DIR NAME end").unwrap())
}

fn run(witd: &mut Witd, files: Vec<File>) -> Vec<String> {
    match witd.execute(files) {
        Ok(lines) => lines,
        Err(e) => panic!("{:?}", e),
    }
}

fn none() -> Vec<String> {
    vec![]
}

#[test]
fn new_tracker_knows_no_file() {
    let witd = per_file();
    assert_eq!(None, witd.get_file(&file("./w/a.txt", 1, 1)));
}

#[test]
fn empty_scan_runs_nothing() {
    assert_eq!(none(), run(&mut per_file(), vec![]));
    assert_eq!(none(), run(&mut per_directory(), vec![]));
}

#[test]
fn identical_descriptor_triggers_only_once() {
    for mut witd in [per_file(), per_directory()] {
        let a = file("./w/a.txt", 10, 20);
        assert_eq!(1, run(&mut witd, vec![a.clone()]).len());
        assert_eq!(none(), run(&mut witd, vec![a.clone()]));
        assert_eq!(none(), run(&mut witd, vec![a.clone()]));
        assert_eq!(Some(&a), witd.get_file(&a));
    }
}

#[test]
fn repeated_scan_triggers_only_once() {
    for mut witd in [per_file(), per_directory()] {
        let scan =
            vec![file("./w/a.txt", 10, 20), file("./w/b.txt", 5, 7), file("./w/c/d.rs", 1, 1)];
        assert!(!run(&mut witd, scan.clone()).is_empty());
        assert_eq!(none(), run(&mut witd, scan.clone()));
        for f in &scan {
            assert_eq!(Some(f), witd.get_file(f));
        }
    }
}

#[test]
fn later_modification_triggers_again_and_is_remembered() {
    let mut witd = per_file();
    let old = file("./w/a.txt", 10, 20);
    let new = file("./w/a.txt", 10, 21);
    assert_eq!(vec!["echo a.txt in ./w".to_string()], run(&mut witd, vec![old.clone()]));
    assert_eq!(vec!["echo a.txt in ./w".to_string()], run(&mut witd, vec![new.clone()]));
    assert_eq!(Some(&new), witd.get_file(&old));
    assert_eq!(none(), run(&mut witd, vec![new.clone()]));
}

#[test]
fn later_creation_triggers_again_and_is_remembered() {
    let mut witd = per_file();
    let old = file("./w/a.txt", 10, 20);
    let new = file("./w/a.txt", 11, 20);
    assert_eq!(1, run(&mut witd, vec![old.clone()]).len());
    assert_eq!(1, run(&mut witd, vec![new.clone()]).len());
    assert_eq!(Some(&new), witd.get_file(&old));
}

#[test]
fn earlier_modification_does_not_trigger() {
    let mut witd = per_file();
    let known = file("./w/a.txt", 10, 20);
    let earlier = file("./w/a.txt", 10, 19);
    assert_eq!(1, run(&mut witd, vec![known.clone()]).len());
    assert_eq!(none(), run(&mut witd, vec![earlier.clone()]));
    assert_eq!(Some(&known), witd.get_file(&earlier));
}

#[test]
fn time_running_backwards_never_triggers() {
    for mut witd in [per_file(), per_directory()] {
        let known = file("./w/a.txt", 10, 20);
        assert_eq!(1, run(&mut witd, vec![known.clone()]).len());
        for (created_at, modified_at) in [(10, 20), (9, 20), (10, 0), (0, 0), (9, 19)] {
            assert_eq!(none(), run(&mut witd, vec![file("./w/a.txt", created_at, modified_at)]));
            assert_eq!(Some(&known), witd.get_file(&known));
        }
    }
}

#[test]
fn later_on_one_timestamp_and_earlier_on_the_other_triggers() {
    let mut witd = per_file();
    assert_eq!(1, run(&mut witd, vec![file("./w/a.txt", 10, 20)]).len());
    let mixed = file("./w/a.txt", 11, 5);
    assert_eq!(1, run(&mut witd, vec![mixed.clone()]).len());
    assert_eq!(Some(&mixed), witd.get_file(&mixed));
}

#[test]
fn three_changed_files_run_a_directory_rule_once() {
    let mut witd = per_directory();
    let scan = vec![file("./w/a.txt", 1, 1), file("./w/b.txt", 1, 1), file("./w/c.txt", 1, 1)];
    assert_eq!(vec!["make -C ./w NAME".to_string()], run(&mut witd, scan));
}

#[test]
fn three_changed_files_run_a_file_rule_three_times() {
    let mut witd = per_file();
    let scan = vec![file("./w/b.txt", 1, 1), file("./w/sub/a.txt", 1, 1), file("./w/c", 1, 1)];
    assert_eq!(
        vec![
            "echo b.txt in ./w".to_string(),
            "echo a.txt in ./w/sub".to_string(),
            "echo c in ./w".to_string()
        ],
        run(&mut witd, scan)
    );
}

#[test]
fn only_the_changed_files_of_a_scan_run() {
    let mut witd = per_file();
    let a = file("./w/a.txt", 1, 1);
    let b = file("./w/b.txt", 1, 1);
    let c = file("./w/c.txt", 1, 1);
    assert_eq!(3, run(&mut witd, vec![a.clone(), b.clone(), c.clone()]).len());
    let b2 = file("./w/b.txt", 1, 2);
    let d = file("./w/d.txt", 0, 0);
    assert_eq!(
        vec!["echo d.txt in ./w".to_string(), "echo b.txt in ./w".to_string()],
        run(&mut witd, vec![a.clone(), d.clone(), c.clone(), b2.clone()])
    );
    assert_eq!(Some(&b2), witd.get_file(&b));
    assert_eq!(Some(&d), witd.get_file(&d));
    assert_eq!(Some(&a), witd.get_file(&a));
}

#[test]
fn directory_rule_runs_once_whatever_changed() {
    let mut witd = per_directory();
    let a = file("./w/a.txt", 1, 1);
    let b = file("./w/b.txt", 1, 1);
    assert_eq!(1, run(&mut witd, vec![a.clone(), b.clone()]).len());
    assert_eq!(none(), run(&mut witd, vec![a.clone(), b.clone()]));
    assert_eq!(1, run(&mut witd, vec![a.clone(), file("./w/b.txt", 2, 1)]).len());
    assert_eq!(1, run(&mut witd, vec![file("./w/c.txt", 0, 0)]).len());
}

#[test]
fn never_seen_path_is_eligible_whatever_its_timestamps() {
    for (created_at, modified_at) in [(0, 0), (1, 0), (0, 1), (u128::MAX, u128::MAX)] {
        let mut witd = per_file();
        assert_eq!(1, run(&mut witd, vec![file("./w/old.txt", 100, 100)]).len());
        let fresh = file("./w/fresh.txt", created_at, modified_at);
        assert_eq!(vec!["echo fresh.txt in ./w".to_string()], run(&mut witd, vec![fresh.clone()]));
        assert_eq!(Some(&fresh), witd.get_file(&fresh));
    }
}

#[test]
fn a_path_that_comes_twice_in_a_scan_is_judged_each_time() {
    let mut witd = per_file();
    let first = file("./w/a.txt", 1, 5);
    let second = file("./w/a.txt", 2, 3);
    assert_eq!(2, run(&mut witd, vec![first.clone(), second.clone()]).len());
    assert_eq!(Some(&second), witd.get_file(&first));
    let mut witd = per_file();
    assert_eq!(1, run(&mut witd, vec![first.clone(), first.clone()]).len());
    assert_eq!(Some(&first), witd.get_file(&first));
}

#[test]
fn a_scan_with_one_path_twice_can_trigger_when_repeated() {
    let mut witd = per_file();
    let first = file("./w/a.txt", 1, 5);
    let second = file("./w/a.txt", 2, 3);
    assert_eq!(2, run(&mut witd, vec![first.clone(), second.clone()]).len());
    assert_eq!(2, run(&mut witd, vec![first.clone(), second.clone()]).len());
    assert_eq!(Some(&second), witd.get_file(&first));
}

#[test]
fn files_are_told_apart_by_their_path() {
    let mut witd = per_file();
    let a = file("./w/x/a.txt", 1, 1);
    let b = file("./w/y/a.txt", 1, 1);
    assert_eq!(1, run(&mut witd, vec![a.clone()]).len());
    assert_eq!(None, witd.get_file(&b));
    assert_eq!(vec!["echo a.txt in ./w/y".to_string()], run(&mut witd, vec![b.clone()]));
    assert_eq!(Some(&a), witd.get_file(&a));
    assert_eq!(Some(&b), witd.get_file(&b));
}
