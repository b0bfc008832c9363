use file_organizer::archive::{build_archive, ArchiveError};
use file_organizer::clock::{format_stamp, time_now, LocalTime};
use file_organizer::backup::{backup_archive, create_backup, plan_backup};
use file_organizer::guard::{filesystem_roots, get_available_drives, validate_path, PathRejected};
use file_organizer::message::{decimal_string, end_message, organize_message};
use file_organizer::organize::{
    categorize_files, create_folders, extension_of, move_files_to_folders, plan_reorganize,
    DirEntry, Placement,
};
use file_organizer::prune::remove_empty_folders;
use file_organizer::rules::{get_folder_name, load_rule_table, ConfigError, RuleTable};
use file_organizer::text::join_path;
use std::io::Read;

fn s(x: &str) -> String {
    x.to_string()
}

fn strings(xs: &[&str]) -> Vec<String> {
    xs.iter().map(|x| x.to_string()).collect()
}

fn file(name: &str) -> DirEntry {
    DirEntry { name: s(name), is_dir: false }
}

fn dir(name: &str) -> DirEntry {
    DirEntry { name: s(name), is_dir: true }
}

fn table(rows: &[(&str, &[&str])]) -> RuleTable {
    let rows: Vec<(String, Vec<String>)> = rows.iter().map(|(n, e)| (s(n), strings(e))).collect();
    match RuleTable::from_rows(&rows) {
        Ok(t) => t,
        Err(_) => panic!("rows were refused"),
    }
}

fn moves_of(plan_moves: &[file_organizer::organize::Move]) -> Vec<(String, String)> {
    plan_moves.iter().map(|m| (m.from.clone(), m.to.clone())).collect()
}

#[test]
fn folder_name_of_listed_and_unlisted_extensions() {
    let names = strings(&["Images", "Videos"]);
    let exts = vec![strings(&[".jpg", ".png", ".gif"]), strings(&[".mp4", ".mov", ".avi"])];
    assert_eq!(get_folder_name(".jpg", &names, &exts), "Images");
    assert_eq!(get_folder_name(".mov", &names, &exts), "Videos");
    assert_eq!(get_folder_name(".doc", &names, &exts), "Uncategorized");
    assert_eq!(get_folder_name("", &names, &exts), "Uncategorized");
}

#[test]
fn classification_is_case_sensitive_and_first_match_wins() {
    let t = table(&[("Images", &[".jpg"]), ("Other", &[".jpg", ".txt"])]);
    assert_eq!(t.classify(".jpg"), "Images");
    assert_eq!(t.classify(".txt"), "Other");
    assert_eq!(t.classify(".JPG"), "Uncategorized");
}

#[test]
fn empty_extension_matches_only_an_explicit_rule() {
    let t = table(&[("Plain", &[""])]);
    assert_eq!(t.classify(""), "Plain");
    let u = table(&[("Images", &[".jpg"])]);
    assert_eq!(u.classify(""), "Uncategorized");
}

#[test]
fn extensions_keep_the_leading_dot() {
    assert_eq!(extension_of("x.jpg"), ".jpg");
    assert_eq!(extension_of("archive.tar.gz"), ".gz");
    assert_eq!(extension_of(".bashrc"), "");
    assert_eq!(extension_of("README"), "");
    assert_eq!(extension_of("file."), ".");
    assert_eq!(extension_of("..x"), ".x");
    assert_eq!(extension_of(""), "");
}

#[test]
fn rule_table_loads_from_json_in_source_order() {
    let t = match load_rule_table(r#"{"Images": [".jpg", ".png"], "Documents": [".pdf", ".docx"]}"#) {
        Ok(t) => t,
        Err(_) => panic!("well-formed rules were refused"),
    };
    assert_eq!(t.folder_names(), &strings(&["Images", "Documents"]));
    assert_eq!(
        t.file_extensions(),
        &vec![strings(&[".jpg", ".png"]), strings(&[".pdf", ".docx"])]
    );
    assert_eq!(t.classify(".png"), "Images");
}

#[test]
fn malformed_rules_are_refused() {
    assert!(matches!(load_rule_table("[1, 2]"), Err(ConfigError::Malformed)));
    assert!(matches!(load_rule_table(r#"{"A": [1]}"#), Err(ConfigError::Malformed)));
    assert!(matches!(load_rule_table(r#"{"A": ".jpg"}"#), Err(ConfigError::Malformed)));
    assert!(matches!(load_rule_table("not json"), Err(ConfigError::Malformed)));
    assert!(matches!(load_rule_table(r#"{}"#), Ok(_)));
}

#[test]
fn duplicate_category_names_are_refused() {
    let rows = vec![(s("A"), strings(&[".a"])), (s("A"), strings(&[".b"]))];
    assert!(matches!(RuleTable::from_rows(&rows), Err(ConfigError::DuplicateCategory)));
}

#[test]
fn scenario_images_docs_and_an_unknown_file() {
    let t = table(&[("Images", &[".jpg"]), ("Docs", &[".pdf"])]);
    let entries = vec![file("x.jpg"), file("y.pdf"), file("z.exe")];
    let plan = plan_reorganize("/d", &t, &entries);
    assert_eq!(plan.count, 3);
    assert_eq!(plan.folders, strings(&["/d/Images", "/d/Docs", "/d/Uncategorized"]));
    assert_eq!(
        moves_of(&plan.moves),
        vec![
            (s("/d/x.jpg"), s("/d/Images/x.jpg")),
            (s("/d/y.pdf"), s("/d/Docs/y.pdf")),
            (s("/d/z.exe"), s("/d/Uncategorized/z.exe")),
        ]
    );
}

#[test]
fn every_top_level_file_is_counted_and_moved_once() {
    let t = table(&[("Text", &[".txt", ".md"]), ("Images", &[".png"])]);
    let entries = vec![file("a.txt"), dir("sub"), file("b.png"), file("c.md"), dir("Text")];
    let plan = plan_reorganize("root", &t, &entries);
    assert_eq!(plan.count, 3);
    assert_eq!(
        moves_of(&plan.moves),
        vec![
            (s("root/a.txt"), s("root/Text/a.txt")),
            (s("root/b.png"), s("root/Images/b.png")),
            (s("root/c.md"), s("root/Text/c.md")),
        ]
    );
}

#[test]
fn second_run_on_an_organized_directory_counts_nothing() {
    let t = table(&[("Images", &[".jpg"]), ("Docs", &[".pdf"])]);
    let first = plan_reorganize("/d", &t, &vec![file("x.jpg"), file("y.pdf")]);
    assert_eq!(first.count, 2);
    let after = vec![dir("Images"), dir("Docs"), dir("Uncategorized")];
    let second = plan_reorganize("/d", &t, &after);
    assert_eq!(second.count, 0);
    assert!(second.moves.is_empty());
}

#[test]
fn uncategorized_folder_is_not_doubled() {
    let t = table(&[("Uncategorized", &[".x"]), ("A", &[".a"])]);
    let plan = plan_reorganize("/p", &t, &vec![]);
    assert_eq!(plan.folders, strings(&["/p/Uncategorized", "/p/A"]));
    assert_eq!(plan.count, 0);
}

#[test]
fn categorize_appends_to_the_inventory() {
    let names = strings(&["Images"]);
    let exts = vec![strings(&[".jpg"])];
    let mut inv = vec![Placement { file_name: s("old.jpg"), category: s("Images") }];
    let n = categorize_files(&mut inv, &names, &exts, &vec![file("n.jpg"), dir("d"), file("q")]);
    assert_eq!(n, 2);
    let got: Vec<(String, String)> = inv.iter().map(|p| (p.file_name.clone(), p.category.clone())).collect();
    assert_eq!(
        got,
        vec![
            (s("old.jpg"), s("Images")),
            (s("n.jpg"), s("Images")),
            (s("q"), s("Uncategorized")),
        ]
    );
    let moves = move_files_to_folders(&inv, "/t");
    assert_eq!(moves[2].from, "/t/q");
    assert_eq!(moves[2].to, "/t/Uncategorized/q");
    assert_eq!(create_folders("/t", &names), strings(&["/t/Images"]));
}

#[test]
fn pruning_collapses_an_empty_chain_deepest_first() {
    let dirs = strings(&["A", "A/B", "A/B/C"]);
    assert_eq!(remove_empty_folders(&dirs, &vec![]), strings(&["A/B/C", "A/B", "A"]));
}

#[test]
fn pruning_keeps_a_folder_that_holds_a_file() {
    let dirs = strings(&["A", "A/B", "A/B/C"]);
    let files = strings(&["A/f.txt"]);
    assert_eq!(remove_empty_folders(&dirs, &files), strings(&["A/B/C", "A/B"]));
    let deep = strings(&["A/B/C/g.txt"]);
    assert!(remove_empty_folders(&dirs, &deep).is_empty());
}

#[test]
fn pruning_does_not_confuse_name_prefixes() {
    let dirs = strings(&["A", "AB"]);
    let files = strings(&["AB/x"]);
    assert_eq!(remove_empty_folders(&dirs, &files), strings(&["A"]));
}

#[test]
fn path_guard_rejects_the_system_root_in_any_case() {
    let roots = Some(strings(&["C:\\", "D:\\"]));
    assert_eq!(validate_path("C:\\Windows", &roots), Err(PathRejected::SystemRoot));
    assert_eq!(validate_path("c:\\WINDOWS", &roots), Err(PathRejected::SystemRoot));
    assert_eq!(validate_path("C:\\Windows", &None), Err(PathRejected::SystemRoot));
}

#[test]
fn path_guard_accepts_paths_under_a_root() {
    let roots = Some(strings(&["C:\\", "D:\\"]));
    assert_eq!(validate_path("D:\\Downloads", &roots), Ok(()));
    assert_eq!(validate_path("c:\\users\\me", &roots), Ok(()));
    assert_eq!(validate_path("C:\\Windows\\Temp", &roots), Ok(()));
    assert_eq!(validate_path("Q:\\x", &roots), Err(PathRejected::InvalidPath));
    assert_eq!(validate_path("", &roots), Err(PathRejected::InvalidPath));
    assert_eq!(validate_path("/home/user", &None), Ok(()));
}

#[test]
fn available_drives_follow_the_letters() {
    let mut present = vec![false; 26];
    present[2] = true;
    present[3] = true;
    present[25] = true;
    assert_eq!(get_available_drives(&present), strings(&["C:\\", "D:\\", "Z:\\"]));
    assert_eq!(get_available_drives(&vec![]), Vec::<String>::new());
    assert_eq!(filesystem_roots(true, &present), Some(strings(&["C:\\", "D:\\", "Z:\\"])));
    assert_eq!(filesystem_roots(false, &present), None);
}

#[test]
fn end_message_gives_the_count() {
    assert_eq!(end_message(3), "Organized 3 files successfully!");
    assert_eq!(end_message(0), "Organized 0 files successfully!");
    assert_eq!(decimal_string(1234567890), "1234567890");
    assert_eq!(decimal_string(usize::MAX), usize::MAX.to_string());
}

#[test]
fn organize_message_tells_refusals_apart() {
    assert_eq!(organize_message(Ok(7)), "Organized 7 files successfully!");
    assert_eq!(
        organize_message(Err(PathRejected::SystemRoot)),
        "Error: Cannot organize files in the Windows directory."
    );
    assert_eq!(organize_message(Err(PathRejected::InvalidPath)), "Error: Invalid path.");
}

#[test]
fn join_puts_one_separator() {
    assert_eq!(join_path("a", "b"), "a/b");
    assert_eq!(join_path("", "b"), "/b");
}

#[test]
fn backup_plan_holds_top_level_files_only() {
    let entries = vec![file("a.txt"), dir("backup"), file("b.txt"), dir("sub")];
    let plan = plan_backup("/d", "2024-01-02_03-04-05", &entries);
    assert_eq!(plan.folder, "/d/backup");
    assert_eq!(plan.archive, "/d/backup/backup-2024-01-02_03-04-05.zip");
    let members: Vec<(String, String)> =
        plan.members.iter().map(|m| (m.entry_name.clone(), m.source.clone())).collect();
    assert_eq!(members, vec![(s("a.txt"), s("/d/a.txt")), (s("b.txt"), s("/d/b.txt"))]);
}

#[test]
fn backup_now_is_stamped() {
    let plan = create_backup("/d", &vec![file("a.txt")]);
    assert!(plan.archive.starts_with("/d/backup/backup-"));
    assert!(plan.archive.ends_with(".zip"));
    let stamp = &plan.archive["/d/backup/backup-".len()..plan.archive.len() - ".zip".len()];
    assert_eq!(stamp.len(), "2024-01-02_03-04-05".len());
    assert_eq!(&stamp[4..5], "-");
    assert_eq!(&stamp[10..11], "_");
    assert_eq!(plan.members.len(), 1);
}

#[test]
fn archive_round_trip_keeps_names_and_bytes() {
    let members = vec![(s("a.txt"), b"alpha\n".to_vec()), (s("b.txt"), vec![0u8, 1, 2, 255])];
    let bytes = match build_archive(&members) {
        Ok(b) => b,
        Err(e) => panic!("archive failed: {:?}", e),
    };
    let mut zip = zip::ZipArchive::new(std::io::Cursor::new(bytes.clone())).unwrap();
    assert_eq!(zip.len(), 2);
    let mut names: Vec<String> = zip.file_names().map(|n| n.to_string()).collect();
    names.sort();
    assert_eq!(names, strings(&["a.txt", "b.txt"]));
    for (name, data) in &members {
        let mut f = zip.by_name(name).unwrap();
        assert_eq!(f.compression(), zip::CompressionMethod::Stored);
        let mut got = Vec::new();
        f.read_to_end(&mut got).unwrap();
        assert_eq!(&got, data);
    }
    let again = build_archive(&members);
    assert_eq!(again.ok(), Some(bytes));
}

#[test]
fn empty_archive_builds() {
    let bytes = build_archive(&vec![]);
    assert!(bytes.is_ok());
    let zip = zip::ZipArchive::new(std::io::Cursor::new(bytes.unwrap())).unwrap();
    assert_eq!(zip.len(), 0);
    let _ = ArchiveError::Io;
}

#[test]
fn backup_archive_names_entries_by_file_name() {
    let entries = vec![file("a.txt"), dir("backup"), file("b.txt")];
    let plan = plan_backup("/d", "2024-01-02_03-04-05", &entries);
    let contents = vec![b"first".to_vec(), b"second".to_vec()];
    let bytes = match backup_archive(&plan, &contents) {
        Ok(b) => b,
        Err(e) => panic!("archive failed: {:?}", e),
    };
    let mut zip = zip::ZipArchive::new(std::io::Cursor::new(bytes)).unwrap();
    let names: Vec<String> = zip.file_names().map(|n| n.to_string()).collect();
    assert_eq!(names.len(), 2);
    assert!(names.contains(&s("a.txt")) && names.contains(&s("b.txt")));
    let mut got = String::new();
    zip.by_name("b.txt").unwrap().read_to_string(&mut got).unwrap();
    assert_eq!(got, "second");
}

#[test]
fn backup_of_a_txt_and_b_txt() {
    let entries = vec![file("a.txt"), file("b.txt"), dir("backup")];
    let plan = plan_backup("/d", "2024-01-02_03-04-05", &entries);
    assert_eq!(plan.archive, "/d/backup/backup-2024-01-02_03-04-05.zip");
    let members: Vec<(String, String)> =
        plan.members.iter().map(|m| (m.entry_name.clone(), m.source.clone())).collect();
    assert_eq!(members, vec![(s("a.txt"), s("/d/a.txt")), (s("b.txt"), s("/d/b.txt"))]);
    let contents = vec![b"A bytes".to_vec(), b"B bytes".to_vec()];
    let result = backup_archive(&plan, &contents);
    assert!(result.is_ok());
    let mut zip = zip::ZipArchive::new(std::io::Cursor::new(result.unwrap())).unwrap();
    let mut names: Vec<String> = zip.file_names().map(|n| n.to_string()).collect();
    names.sort();
    assert_eq!(names, strings(&["a.txt", "b.txt"]));
    for (name, data) in [("a.txt", &contents[0]), ("b.txt", &contents[1])] {
        let mut got = Vec::new();
        zip.by_name(name).unwrap().read_to_end(&mut got).unwrap();
        assert_eq!(&got, data);
    }
}

#[test]
fn repeated_key_keeps_first_place_and_last_value() {
    let t = load_rule_table(r#"{"B": [".b"], "A": [".a"], "B": [".c"]}"#).ok().unwrap();
    assert_eq!(t.folder_names(), &strings(&["B", "A"]));
    assert_eq!(t.classify(".c"), "B");
    assert_eq!(t.classify(".b"), "Uncategorized");
}

fn at(year: i32, month: u32, day: u32, hour: u32, minute: u32, second: u32) -> LocalTime {
    LocalTime { year, month, day, hour, minute, second }
}

#[test]
fn stamps_have_the_fixed_form() {
    assert_eq!(format_stamp(&at(2024, 1, 2, 3, 4, 5)), "2024-01-02_03-04-05");
    assert_eq!(format_stamp(&at(999, 12, 31, 23, 59, 59)), "0999-12-31_23-59-59");
    assert_eq!(format_stamp(&at(12345, 6, 7, 8, 9, 10)), "+12345-06-07_08-09-10");
    assert_eq!(format_stamp(&at(-1, 1, 1, 0, 0, 0)), "-0001-01-01_00-00-00");
}

#[test]
fn stamps_match_chrono() {
    for (y, mo, d, h, mi, s) in [(2024, 1, 2, 3, 4, 5), (7, 11, 30, 12, 0, 59), (10000, 2, 29, 1, 1, 1), (-44, 3, 15, 9, 30, 0)] {
        let dt = chrono::NaiveDate::from_ymd_opt(y, mo, d).unwrap().and_hms_opt(h, mi, s).unwrap();
        assert_eq!(format_stamp(&at(y, mo, d, h, mi, s)), dt.format("%Y-%m-%d_%H-%M-%S").to_string());
    }
}

#[test]
fn time_now_is_a_stamp() {
    let t = time_now();
    assert_eq!(t.len(), 19);
    for (i, c) in t.chars().enumerate() {
        match i {
            4 | 7 | 13 | 16 => assert_eq!(c, '-'),
            10 => assert_eq!(c, '_'),
            _ => assert!(c.is_ascii_digit()),
        }
    }
}
