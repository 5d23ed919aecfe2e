use trash_rs::config::Config;
use trash_rs::delete::{
    deletion_date, delete_file, delete_files, metadata_entry, metadata_file, next_destination,
    record_date, DeleteError, NameProbe, TrashPlan,
};

fn b(x: &str) -> Vec<u8> {
    x.as_bytes().to_vec()
}

fn strings(xs: &[&str]) -> Vec<String> {
    xs.iter().map(|x| x.to_string()).collect()
}

#[test]
fn delete_job_from_the_command_line() {
    let c = Config::new(b"/m");
    let job = delete_files(strings(&["trash-rs", "delete", "a", "b"]), strings(&["-v"]), &c);
    assert_eq!(job.files, strings(&["a", "b"]));
    assert!(!job.write_options.overwrite_enabled);
    assert_eq!(job.trash_dir, b("/m/files"));
    assert_eq!(job.trash_info, b("/m/info"));
    let job = delete_files(strings(&["trash-rs", "delete"]), strings(&["-o"]), &c);
    assert!(job.files.is_empty());
    assert!(job.write_options.overwrite_enabled);
}

#[test]
fn planning_a_relative_file() {
    let plan = delete_file("docs/a.txt", "/w".as_bytes(), "/m/files".as_bytes()).unwrap();
    assert_eq!(plan.origin, b("/w/docs/a.txt"));
    assert_eq!(plan.destination, b("/m/files/a.txt"));
    assert_eq!(plan.stem, b("a"));
    assert_eq!(plan.ext, b(".txt"));
}

#[test]
fn planning_an_absolute_file_without_extension() {
    let plan = delete_file("/etc/hosts", "/w".as_bytes(), "/m/files".as_bytes()).unwrap();
    assert_eq!(plan.origin, b("/etc/hosts"));
    assert_eq!(plan.destination, b("/m/files/hosts"));
    assert_eq!(plan.stem, b("hosts"));
    assert_eq!(plan.ext, b("."));
}

#[test]
fn planning_a_path_without_file_name() {
    assert!(matches!(delete_file("..", "/w".as_bytes(), "/m/files".as_bytes()), Err(DeleteError::NoFileName)));
    assert!(matches!(delete_file("/", "/w".as_bytes(), "/m/files".as_bytes()), Err(DeleteError::NoFileName)));
    assert!(matches!(delete_file("", "/w".as_bytes(), "/m/files".as_bytes()), Err(DeleteError::NoFileName)));
}

fn retry(plan: &TrashPlan, current: &[u8], count: u64) -> (u64, Vec<u8>) {
    match next_destination(plan, current, count, true, false) {
        NameProbe::Retry { count, destination } => (count, destination),
        NameProbe::Keep => panic!("expected a retry"),
    }
}

#[test]
fn a_free_place_is_kept() {
    let plan = delete_file("a.txt", "/w".as_bytes(), "/m/files".as_bytes()).unwrap();
    assert!(matches!(next_destination(&plan, "/m/files/a.txt".as_bytes(), 0, false, false), NameProbe::Keep));
    assert!(matches!(next_destination(&plan, "/m/files/a.txt".as_bytes(), 0, true, true), NameProbe::Keep));
    assert!(matches!(next_destination(&plan, "/m/files/a.txt".as_bytes(), 0, false, true), NameProbe::Keep));
}

#[test]
fn taken_places_lead_to_numbered_copies() {
    let plan = delete_file("a.txt", "/w".as_bytes(), "/m/files".as_bytes()).unwrap();
    let (c1, d1) = retry(&plan, &plan.destination, 0);
    assert_eq!((c1, d1.clone()), (1, b("/m/files/a(1)..txt")));
    let (c2, d2) = retry(&plan, &d1, c1);
    assert_eq!((c2, d2.clone()), (2, b("/m/files/a(2)..txt")));
    let (c10, d10) = retry(&plan, &d2, 9);
    assert_eq!((c10, d10), (10, b("/m/files/a(10)..txt")));
}

#[test]
fn copies_of_a_file_without_extension() {
    let plan = delete_file("notes", "/w".as_bytes(), "/m/files".as_bytes()).unwrap();
    let (_, d1) = retry(&plan, &plan.destination, 0);
    assert_eq!(d1, b("/m/files/notes(1).."));
    let (_, d2) = retry(&plan, &d1, 1);
    assert_eq!(d2, b("/m/files/notes(2).."));
}

#[test]
fn copies_of_a_stem_with_a_dot_collide() {
    let plan = delete_file("a.b.c", "/w".as_bytes(), "/m/files".as_bytes()).unwrap();
    assert_eq!(plan.stem, b("a.b"));
    let (_, d1) = retry(&plan, &plan.destination, 0);
    let (_, d2) = retry(&plan, &d1, 1);
    assert_eq!(d1, b("/m/files/a..c"));
    assert_eq!(d2, b("/m/files/a..c"));
}

#[test]
fn copies_never_repeat_for_plain_stems() {
    let plan = delete_file("x/report.pdf", "/w".as_bytes(), "/t//files//".as_bytes()).unwrap();
    let mut seen = vec![plan.destination.clone()];
    let mut current = plan.destination.clone();
    let mut count = 0;
    for _ in 0..25 {
        let (c, d) = retry(&plan, &current, count);
        assert!(!seen.contains(&d));
        seen.push(d.clone());
        current = d;
        count = c;
    }
    assert_eq!(current, b("/t//files/report(25)..pdf"));
}

#[test]
fn metadata_file_names() {
    assert_eq!(metadata_file("/m/info".as_bytes(), "/m/files/a.txt".as_bytes()).unwrap(), b("/m/info/a.txt.info"));
    assert_eq!(metadata_file("/m/info".as_bytes(), "/m/files/a".as_bytes()).unwrap(), b("/m/info/a.info"));
    assert_eq!(metadata_file("/m/info".as_bytes(), "/m/files/a(1)..txt".as_bytes()).unwrap(), b("/m/info/a(1)..txt.info"));
    assert_eq!(metadata_file("/m/info".as_bytes(), "/m/files/a.".as_bytes()).unwrap(), b("/m/info/a.info"));
    assert!(matches!(metadata_file("/m/info".as_bytes(), "/".as_bytes()), Err(DeleteError::NoFileName)));
}

#[test]
fn recorded_dates() {
    assert_eq!(record_date("2018-02-14T00:28:07Z"), "2018-02-14 00:28:07");
    assert_eq!(record_date(""), "");
    assert_eq!(deletion_date(0), "1970-01-01 00:00:00");
    assert_eq!(deletion_date(1_700_000_000), "2023-11-14 22:13:20");
    assert_eq!(deletion_date(253_402_300_799), "9999-12-31 23:59:59");
}

#[test]
fn metadata_of_a_trashed_file() {
    let e = metadata_entry(&b("/w/a.txt"), b"/m/files/a.txt", b"/m/info", 86_400).unwrap();
    assert_eq!(e.location, b("/m/info/a.txt.info"));
    assert_eq!(e.record.path, b("/w/a.txt"));
    assert_eq!(e.record.date, "1970-01-02 00:00:00");
    assert!(matches!(metadata_entry(&b("/w"), b"..", b"/m/info", 0), Err(DeleteError::NoFileName)));
}

#[test]
fn a_trashed_file_is_listed_from_its_metadata() {
    let plan = delete_file("/h/a.txt", "/w".as_bytes(), "/t/files".as_bytes()).unwrap();
    let entry = metadata_entry(&plan.origin, &plan.destination, b"/t/info", 1_700_000_000).unwrap();
    let name = trash_rs::path::file_name(&entry.location).unwrap();
    assert_eq!(name, b("a.txt.info"));
    let row = trash_rs::list::entry_row(&trash_rs::list::ListEntry { name, record: entry.record }).unwrap();
    assert_eq!(row, "a.txt.info\t\t2023-11-14 22:13:20\t/h/a.txt  ");
}

#[test]
fn files_whose_names_are_not_utf8() {
    let dir: Vec<u8> = vec![b'/', b'w', 0xff];
    let plan = delete_file("a.txt", &dir, b"/m/files").unwrap();
    assert_eq!(plan.origin, vec![b'/', b'w', 0xff, b'/', b'a', b'.', b't', b'x', b't']);
    assert_eq!(plan.destination, b("/m/files/a.txt"));
    let bad: Vec<u8> = vec![b'/', b'm', b'/', b'x', 0xff, b'.', b't'];
    assert!(matches!(metadata_file(b"/m/info", &bad), Err(DeleteError::NotUnicode)));
    assert!(matches!(metadata_entry(&b("/w/x"), &bad, b"/m/info", 0), Err(DeleteError::NotUnicode)));
    let e = metadata_entry(&plan.origin, &plan.destination, b"/m/info", 0).unwrap();
    assert_eq!(e.record.path, plan.origin);
    assert_eq!(e.location, b("/m/info/a.txt.info"));
}
