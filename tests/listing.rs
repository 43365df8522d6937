use dirlist::clock::{format_date, format_time, Clock};
use dirlist::config::Config;
use dirlist::entry::{Entry, Meta, Stamp};
use dirlist::filter::{filter_names, is_shown};
use dirlist::layout::{compose, directory_text, list_entries, split_targets, DirBlock};
use dirlist::order::{name_le_exec, order_entries, sort_entries_by, SortKey};
use dirlist::project::{primary_stamp, project_entry, project_row, Align, Field, ProjectError};
use dirlist::render::render;
use dirlist::text::chars_of;

fn meta() -> Meta {
    Meta {
        inode: 0,
        blocks: 0,
        block_size: 4096,
        mode: 0o100644,
        nlink: 1,
        uid: 1000,
        gid: 100,
        owner: Some("alice".to_string()),
        group: Some("users".to_string()),
        size: 0,
        created: Stamp { secs: 0, nanos: 0 },
        modified: Stamp { secs: 0, nanos: 0 },
        is_symlink: false,
        link_target: None,
    }
}

fn entry(name: &str, is_dir: bool) -> Entry {
    Entry { name: name.to_string(), path: format!("/tmp/{}", name), is_dir, meta: meta() }
}

fn created(name: &str, secs: i64) -> Entry {
    let mut e = entry(name, false);
    e.meta.created = Stamp { secs, nanos: 0 };
    e
}

fn names(v: &[Entry]) -> Vec<String> {
    v.iter().map(|e| e.name.clone()).collect()
}

fn strings(v: &[&str]) -> Vec<String> {
    v.iter().map(|s| s.to_string()).collect()
}

fn field(text: &str, align: Align) -> Field {
    Field { text: text.to_string(), align }
}

#[test]
fn synthetic_entries_only_with_show_all() {
    let raw = strings(&[".hidden", "a", "b~"]);
    let mut cfg = Config::new();
    assert_eq!(filter_names(&cfg, &raw), strings(&["a", "b~"]));
    cfg.almost_all = true;
    assert_eq!(filter_names(&cfg, &raw), strings(&[".hidden", "a", "b~"]));
    cfg.almost_all = false;
    cfg.show_all = true;
    cfg.ignore_backups = true;
    assert_eq!(filter_names(&cfg, &raw), strings(&[".hidden", "a", ".", ".."]));
}

#[test]
fn backup_and_dot_rules_apply_independently() {
    let mut cfg = Config::new();
    cfg.ignore_backups = true;
    assert!(!is_shown(&cfg, &".x".to_string()));
    assert!(!is_shown(&cfg, &"notes~".to_string()));
    assert!(is_shown(&cfg, &"~notes".to_string()));
    assert!(is_shown(&cfg, &"a".to_string()));
    cfg.ignore_backups = false;
    assert!(is_shown(&cfg, &"notes~".to_string()));
}

#[test]
fn name_order_is_by_code_point() {
    assert!(name_le_exec(&"B".to_string(), &"a".to_string()));
    assert!(!name_le_exec(&"a".to_string(), &"B".to_string()));
    assert!(name_le_exec(&"ab".to_string(), &"abc".to_string()));
    assert!(!name_le_exec(&"abc".to_string(), &"ab".to_string()));
    assert!(name_le_exec(&"z".to_string(), &"é".to_string()));
    assert!(name_le_exec(&"x".to_string(), &"x".to_string()));
}

#[test]
fn name_sort_is_idempotent() {
    let mut v = vec![entry("m", false), entry("b", true), entry("z", false), entry("a", false)];
    sort_entries_by(&SortKey::Name, &mut v);
    assert_eq!(names(&v), strings(&["a", "b", "m", "z"]));
    sort_entries_by(&SortKey::Name, &mut v);
    assert_eq!(names(&v), strings(&["a", "b", "m", "z"]));
}

#[test]
fn dirs_first_after_reverse() {
    let input = || {
        vec![
            entry("f2", false),
            entry("d3", true),
            entry("f1", false),
            entry("d1", true),
            entry("f3", false),
            entry("d2", true),
        ]
    };
    let mut cfg = Config::new();
    cfg.dirs_first = true;
    let mut v = input();
    order_entries(&cfg, &mut v);
    assert_eq!(names(&v), strings(&["d1", "d2", "d3", "f1", "f2", "f3"]));
    cfg.reverse = true;
    let mut v = input();
    order_entries(&cfg, &mut v);
    assert_eq!(names(&v), strings(&["d3", "d2", "d1", "f3", "f2", "f1"]));
}

#[test]
fn hidden_dropped_directory_first_scenario() {
    let mut cfg = Config::new();
    cfg.dirs_first = true;
    let kept = filter_names(&cfg, &strings(&[".hidden", "b.txt", "a.txt", "sub"]));
    let mut v: Vec<Entry> = kept.iter().map(|n| entry(n, n == "sub")).collect();
    order_entries(&cfg, &mut v);
    assert_eq!(names(&v), strings(&["sub", "a.txt", "b.txt"]));
}

#[test]
fn no_sort_keeps_read_order() {
    let mut cfg = Config::new();
    cfg.no_sort = true;
    cfg.reverse = true;
    cfg.dirs_first = true;
    cfg.creation_time = true;
    let mut v = vec![entry("z", false), entry("a", true), entry("m", false)];
    order_entries(&cfg, &mut v);
    assert_eq!(names(&v), strings(&["z", "a", "m"]));
}

#[test]
fn creation_time_sort_is_newest_first_and_stable() {
    let mut cfg = Config::new();
    cfg.creation_time = true;
    let mut v = vec![created("old", 10), created("tie1", 20), created("new", 30), created("tie2", 20)];
    order_entries(&cfg, &mut v);
    assert_eq!(names(&v), strings(&["new", "tie1", "tie2", "old"]));
    cfg.detailed = true;
    let mut v = vec![created("b_new", 30), created("a_old", 10)];
    order_entries(&cfg, &mut v);
    assert_eq!(names(&v), strings(&["a_old", "b_new"]));
    cfg.time_sort = true;
    let mut v = vec![created("a_old", 10), created("b_new", 30)];
    order_entries(&cfg, &mut v);
    assert_eq!(names(&v), strings(&["b_new", "a_old"]));
}

#[test]
fn column_widths_follow_widest_text() {
    let grid = vec![
        vec![field("abc", Align::Right), field("abc", Align::Left), field("x", Align::Unpadded)],
        vec![field("a", Align::Right), field("a", Align::Left), field("y", Align::Unpadded)],
        vec![field("abcde", Align::Right), field("abcde", Align::Left), field("zz", Align::Unpadded)],
    ];
    let out = render(&grid, true);
    assert_eq!(out, "  abc abc   x \n    a a     y \nabcde abcde zz \n");
}

#[test]
fn width_counts_characters_not_bytes() {
    let grid = vec![
        vec![field("éé", Align::Right), field("n", Align::Unpadded)],
        vec![field("abc", Align::Right), field("m", Align::Unpadded)],
    ];
    assert_eq!(render(&grid, true), " éé n \nabc m \n");
}

#[test]
fn compact_mode_never_pads() {
    let grid = vec![vec![field("ab", Align::Right), field("0123456789", Align::Unpadded)]];
    assert_eq!(render(&grid, false), "ab 0123456789  \n");
    let grid = vec![vec![field("a", Align::Unpadded)], vec![field("bcd", Align::Unpadded)]];
    assert_eq!(render(&grid, false), "a  bcd  \n");
}

#[test]
fn empty_grid_renders_nothing() {
    let grid: Vec<Vec<Field>> = Vec::new();
    assert_eq!(render(&grid, true), "");
    assert_eq!(render(&grid, false), "");
    let mut cfg = Config::new();
    cfg.show_all = false;
    let empty = filter_names(&cfg, &strings(&[".a", ".b"]));
    assert!(empty.is_empty());
    let out = list_entries(&cfg, Vec::new()).ok().unwrap();
    assert_eq!(out, "");
    cfg.detailed = true;
    let out = list_entries(&cfg, Vec::new()).ok().unwrap();
    assert_eq!(out, "");
    assert_eq!(directory_text(&cfg, 0, &out), "total 0\n");
}

fn link() -> Entry {
    let mut e = entry("linkname", false);
    e.meta.is_symlink = true;
    e.meta.mode = 0o120777;
    e.meta.blocks = 8;
    e.meta.link_target = Some("target.txt".to_string());
    e
}

fn clock() -> Clock {
    Clock { month: 3, day: 7, hour: 9, minute: 5 }
}

#[test]
fn symlink_name_shows_target_only_in_detailed_mode() {
    let mut cfg = Config::new();
    let mode = "lrwxrwxrwx".to_string();
    let row = project_row(&cfg, &link(), &mode, &clock(), &clock()).ok().unwrap();
    assert_eq!(row.len(), 1);
    assert_eq!(row[0].text, "linkname");
    cfg.detailed = true;
    let row = project_row(&cfg, &link(), &mode, &clock(), &clock()).ok().unwrap();
    assert_eq!(row.last().unwrap().text, "linkname -> target.txt");
    assert!(row.last().unwrap().align == Align::Unpadded);
}

#[test]
fn detailed_row_in_canonical_order() {
    let mut cfg = Config::new();
    cfg.detailed = true;
    cfg.show_inode = true;
    cfg.show_size = true;
    cfg.show_author = true;
    let mut e = entry("file.txt", false);
    e.meta.inode = 42;
    e.meta.blocks = 16;
    e.meta.block_size = 4096;
    e.meta.nlink = 2;
    e.meta.size = 1234;
    let mode = "-rw-r--r--".to_string();
    let made = Clock { month: 12, day: 25, hour: 23, minute: 59 };
    let row = project_row(&cfg, &e, &mode, &made, &clock()).ok().unwrap();
    let texts: Vec<String> = row.iter().map(|f| f.text.clone()).collect();
    assert_eq!(
        texts,
        strings(&["42", "2", "-rw-r--r--", "2", "alice", "users", "alice", "1234", "Dec 25", "09:05", "file.txt"])
    );
    let aligns: Vec<Align> = row.iter().map(|f| f.align).collect();
    assert!(aligns[0] == Align::Right && aligns[1] == Align::Right && aligns[2] == Align::Left);
    assert!(aligns[4] == Align::Left && aligns[7] == Align::Right && aligns[9] == Align::Left);
}

#[test]
fn numeric_ids_and_omitted_columns() {
    let mut cfg = Config::new();
    cfg.detailed = true;
    cfg.numeric_ids = true;
    cfg.omit_group = true;
    let mut e = entry("f", false);
    e.meta.owner = None;
    e.meta.group = None;
    let row = project_row(&cfg, &e, &"-rw-r--r--".to_string(), &clock(), &clock()).ok().unwrap();
    assert_eq!(row.len(), 7);
    assert_eq!(row[2].text, "1000");
    assert!(row[2].align == Align::Right);
    cfg.omit_owner = true;
    let row = project_row(&cfg, &e, &"-rw-r--r--".to_string(), &clock(), &clock()).ok().unwrap();
    assert_eq!(row.len(), 6);
}

#[test]
fn symlink_is_charged_no_blocks() {
    let mut cfg = Config::new();
    cfg.show_size = true;
    let row = project_row(&cfg, &link(), &"l".to_string(), &clock(), &clock()).ok().unwrap();
    assert_eq!(row[0].text, "0");
    let mut e = entry("f", false);
    e.meta.blocks = 24;
    e.meta.block_size = 1024;
    let row = project_row(&cfg, &e, &"-".to_string(), &clock(), &clock()).ok().unwrap();
    assert_eq!(row[0].text, "12");
}

#[test]
fn unresolved_identities_are_errors() {
    let mut cfg = Config::new();
    cfg.detailed = true;
    let mut e = entry("f", false);
    e.meta.owner = None;
    let r = project_row(&cfg, &e, &"-".to_string(), &clock(), &clock());
    assert!(matches!(r, Err(ProjectError::UnknownUser(1000))));
    let mut e = entry("f", false);
    e.meta.group = None;
    let r = project_entry(&cfg, &e);
    assert!(matches!(r, Err(ProjectError::UnknownGroup(100))));
    let r = list_entries(&cfg, vec![entry("a", false), e]);
    assert!(matches!(r, Err(ProjectError::UnknownGroup(100))));
}

#[test]
fn unrepresentable_time_is_an_error() {
    let mut cfg = Config::new();
    cfg.detailed = true;
    let mut e = entry("f", false);
    e.meta.created = Stamp { secs: i64::MAX, nanos: 0 };
    assert!(matches!(project_entry(&cfg, &e), Err(ProjectError::BadTime)));
}

#[test]
fn projected_entry_has_mode_string() {
    let mut cfg = Config::new();
    cfg.detailed = true;
    let mut e = entry("f", false);
    e.meta.mode = 0o100644;
    let row = project_entry(&cfg, &e).ok().unwrap();
    assert_eq!(row[0].text, "-rw-r--r--");
    assert_eq!(row[6].text.len(), 5);
    assert_eq!(row[6].text.chars().nth(2), Some(':'));
    e.meta.mode = 0o040755;
    let row = project_entry(&cfg, &e).ok().unwrap();
    assert_eq!(row[0].text, "drwxr-xr-x");
    e.meta.mode = 0o107754;
    let row = project_entry(&cfg, &e).ok().unwrap();
    assert_eq!(row[0].text, "-rwsr-sr-T");
    e.meta.mode = 0o120777;
    let row = project_entry(&cfg, &e).ok().unwrap();
    assert_eq!(row[0].text, "lrwxrwxrwx");
}

#[test]
fn compact_listing_of_entries() {
    let cfg = Config::new();
    let out = list_entries(&cfg, vec![entry("b", false), entry("a", false)]).ok().unwrap();
    assert_eq!(out, "a  b  \n");
}

#[test]
fn dates_and_times() {
    assert_eq!(format_date(&clock()), "Mar  7");
    assert_eq!(format_date(&Clock { month: 1, day: 31, hour: 0, minute: 0 }), "Jan 31");
    assert_eq!(format_time(&clock()), "09:05");
    assert_eq!(format_time(&Clock { month: 1, day: 1, hour: 23, minute: 40 }), "23:40");
}

#[test]
fn total_line_only_in_detailed_mode() {
    let mut cfg = Config::new();
    let body = "a  \n".to_string();
    assert_eq!(directory_text(&cfg, 7, &body), "a  \n");
    cfg.detailed = true;
    assert_eq!(directory_text(&cfg, 120, &body), "total 120\na  \n");
}

#[test]
fn targets_split_into_files_and_sorted_dirs() {
    let mut cfg = Config::new();
    let targets = || vec![entry("y", true), entry("f", false), entry("x", true), entry("e", false)];
    let (files, dirs) = split_targets(&cfg, targets());
    assert_eq!(names(&files), strings(&["f", "e"]));
    assert_eq!(names(&dirs), strings(&["x", "y"]));
    cfg.reverse = true;
    let (_, dirs) = split_targets(&cfg, targets());
    assert_eq!(names(&dirs), strings(&["y", "x"]));
    cfg.targets_as_entries = true;
    let (files, dirs) = split_targets(&cfg, targets());
    assert_eq!(names(&files), strings(&["y", "f", "x", "e"]));
    assert!(dirs.is_empty());
}

fn block(name: &str, body: &str) -> DirBlock {
    DirBlock { name: name.to_string(), body: body.to_string() }
}

#[test]
fn output_composition() {
    let none = String::new();
    assert_eq!(compose(&none, 0, &vec![block("d", "a  \n")]), "a  \n");
    assert_eq!(compose(&none, 0, &vec![block("d", "a  \n"), block("e", "b  \n")]), "d:\na  \n\ne:\nb  \n");
    let files = "f  \n".to_string();
    assert_eq!(compose(&files, 1, &vec![block("d", "a  \n")]), "f  \n\nd:\na  \n");
    assert_eq!(compose(&files, 1, &Vec::new()), "f  \n");
}

#[test]
fn chars_of_splits_by_character() {
    assert_eq!(chars_of("aé~"), vec!['a', 'é', '~']);
    assert!(chars_of("").is_empty());
}

#[test]
fn primary_time_follows_creation_flag() {
    let mut m = meta();
    m.created = Stamp { secs: 100, nanos: 1 };
    m.modified = Stamp { secs: 200, nanos: 2 };
    let mut cfg = Config::new();
    let s = primary_stamp(&cfg, &m);
    assert_eq!((s.secs, s.nanos), (200, 2));
    cfg.creation_time = true;
    let s = primary_stamp(&cfg, &m);
    assert_eq!((s.secs, s.nanos), (100, 1));
}

#[test]
fn detailed_listing_succeeds_in_range() {
    let mut cfg = Config::new();
    cfg.detailed = true;
    cfg.numeric_ids = true;
    let mut e = entry("f", false);
    e.meta.created = Stamp { secs: 1_431_648_000, nanos: 0 };
    e.meta.modified = Stamp { secs: 1_431_648_000, nanos: 0 };
    let out = list_entries(&cfg, vec![e]).ok().unwrap();
    assert!(out.starts_with("-rw-r--r-- 1 1000 100 0 "));
    assert!(out.ends_with(" f \n"));
}

#[test]
fn symlink_without_target_is_fine_in_compact_mode() {
    let cfg = Config::new();
    let mut e = link();
    e.meta.link_target = None;
    let out = list_entries(&cfg, vec![e]).ok().unwrap();
    assert_eq!(out, "linkname  \n");
}
