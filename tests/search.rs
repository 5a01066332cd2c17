use grabber::args::{effective_roots, parse_args, Invocation};
use grabber::lister::{name_lt, order_entries};
use grabber::render::push_decimal;
use grabber::search::{
    scan_lines, DirEntry, DirListing, EntryContents, FileSearchResult, FsError, Grabber,
    GrabberSearchTypes,
};
use grabber::text::{contains_bytes, find_first, matches_at};

fn b(s: &str) -> Vec<u8> {
    s.as_bytes().to_vec()
}

fn lines(ls: &[&str]) -> Vec<Vec<u8>> {
    ls.iter().map(|l| b(l)).collect()
}

fn file(path: &str, name: &str, contents: EntryContents) -> DirEntry {
    DirEntry {
        path: b(path),
        name: b(name),
        is_dir: false,
        is_file: true,
        is_symlink: false,
        contents,
    }
}

fn dir(path: &str, name: &str, listing: DirListing) -> DirEntry {
    DirEntry {
        path: b(path),
        name: b(name),
        is_dir: true,
        is_file: false,
        is_symlink: false,
        contents: EntryContents::Listing(listing),
    }
}

fn config(search_type: GrabberSearchTypes, recursive: bool) -> Grabber {
    Grabber { search_type, recursive, numbered: false, verbose: false }
}

fn positions(rs: &[FileSearchResult]) -> Vec<(String, usize, usize)> {
    rs.iter()
        .map(|r| (String::from_utf8(r.file_path.clone()).unwrap(), r.position.0, r.position.1))
        .collect()
}

fn strings(v: Vec<Vec<u8>>) -> Vec<String> {
    v.into_iter().map(|x| String::from_utf8(x).unwrap()).collect()
}

fn args(v: &[&str]) -> Vec<String> {
    v.iter().map(|s| s.to_string()).collect()
}

#[test]
fn find_first_reports_first_byte_offset() {
    assert_eq!(find_first(b"xyzabcabc", b"abc"), Some(3));
    assert_eq!(find_first(b"abc", b"abcd"), None);
    assert_eq!(find_first(b"abc", b"x"), None);
    assert_eq!(find_first(b"abc", b""), Some(0));
    assert_eq!(find_first(b"", b""), Some(0));
    assert_eq!(find_first(b"aab", b"ab"), Some(1));
    assert!(matches_at(b"noabc", b"abc", 2));
    assert!(!matches_at(b"noabc", b"abc", 3));
    assert!(contains_bytes(b"./dir/report.txt", b"port"));
    assert!(!contains_bytes(b"./dir/report.txt", b"Port"));
}

#[test]
fn content_first_match_per_line() {
    let rs = scan_lines(&b("./f.txt"), &lines(&["abc", "xyzabc", "noabc here"]), b"abc");
    assert_eq!(
        positions(&rs),
        vec![
            ("./f.txt".to_string(), 1, 1),
            ("./f.txt".to_string(), 2, 4),
            ("./f.txt".to_string(), 3, 3)
        ]
    );
    assert_eq!(rs[2].context, b("noabc here"));
}

#[test]
fn content_one_record_for_repeated_term() {
    let rs = scan_lines(&b("p"), &lines(&["no", "x abc abc abc"]), b"abc");
    assert_eq!(positions(&rs), vec![("p".to_string(), 2, 3)]);
}

#[test]
fn content_no_match_file_yields_nothing_and_scan_goes_on() {
    let g = config(GrabberSearchTypes::FContents, false);
    let listing = DirListing::Entries(vec![
        file("./a.txt", "a.txt", EntryContents::Lines(lines(&["nothing", "here"]))),
        file("./b.txt", "b.txt", EntryContents::Lines(lines(&["one needle"]))),
    ]);
    let rs = g.search_file_contents_in_dir(b"needle", &listing).ok().unwrap();
    assert_eq!(positions(&rs), vec![("./b.txt".to_string(), 1, 5)]);
    let alone = scan_lines(&b("./a.txt"), &lines(&["nothing", "here"]), b"needle");
    assert!(alone.is_empty());
}

#[test]
fn content_unopenable_file_is_skipped() {
    let g = config(GrabberSearchTypes::FContents, false);
    let listing = DirListing::Entries(vec![
        file("./a.txt", "a.txt", EntryContents::Lines(lines(&["key"]))),
        file("./locked", "locked", EntryContents::Unopenable),
        file("./z.txt", "z.txt", EntryContents::Lines(lines(&["", "a key"]))),
    ]);
    let rs = g.search_file_contents_in_dir(b"key", &listing).ok().unwrap();
    assert_eq!(
        positions(&rs),
        vec![("./a.txt".to_string(), 1, 1), ("./z.txt".to_string(), 2, 3)]
    );
}

#[test]
fn content_symlinks_are_not_opened() {
    let g = config(GrabberSearchTypes::FContents, false);
    let mut link = file("./link", "link", EntryContents::Lines(lines(&["key"])));
    link.is_symlink = true;
    let rs = g.search_file_contents_in_dir(b"key", &DirListing::Entries(vec![link])).ok().unwrap();
    assert!(rs.is_empty());
}

#[test]
fn names_flat_returns_matching_files_in_order() {
    let g = config(GrabberSearchTypes::FileNames, false);
    let mut link = file("./c_log", "c_log", EntryContents::NotLoaded);
    link.is_file = false;
    link.is_symlink = true;
    let listing = DirListing::Entries(vec![
        file("./a_log", "a_log", EntryContents::NotLoaded),
        file("./b.txt", "b.txt", EntryContents::NotLoaded),
        link,
        dir("./d_log", "d_log", DirListing::Failed(FsError { path: b("./d_log"), cause: b("denied") })),
        file("./e_log", "e_log", EntryContents::NotLoaded),
    ]);
    let rs = g.search_file_names_in_dir(b"log", &listing).ok().unwrap();
    assert_eq!(strings(rs), vec!["./a_log", "./c_log", "./e_log"]);
}

#[test]
fn names_match_the_whole_path() {
    let g = config(GrabberSearchTypes::FileNames, true);
    let listing = DirListing::Entries(vec![dir(
        "./src",
        "src",
        DirListing::Entries(vec![file("./src/main.rs", "main.rs", EntryContents::NotLoaded)]),
    )]);
    let rs = g.search_file_names_in_dir(b"src/m", &listing).ok().unwrap();
    assert_eq!(strings(rs), vec!["./src/main.rs"]);
}

#[test]
fn recursion_skips_dot_directories() {
    let g = config(GrabberSearchTypes::FileNames, true);
    let listing = DirListing::Entries(vec![
        dir(
            "./.git",
            ".git",
            DirListing::Entries(vec![file("./.git/x", "x", EntryContents::NotLoaded)]),
        ),
        dir(
            "./sub",
            "sub",
            DirListing::Entries(vec![file("./sub/x", "x", EntryContents::NotLoaded)]),
        ),
        file("./x", "x", EntryContents::NotLoaded),
    ]);
    let rs = g.search_file_names_in_dir(b"x", &listing).ok().unwrap();
    assert_eq!(strings(rs), vec!["./sub/x", "./x"]);
    let c = config(GrabberSearchTypes::FContents, true);
    let failing_dot = DirListing::Entries(vec![dir(
        "./.hidden",
        ".hidden",
        DirListing::Failed(FsError { path: b("./.hidden"), cause: b("denied") }),
    )]);
    assert!(c.search_file_contents_in_dir(b"x", &failing_dot).ok().unwrap().is_empty());
}

#[test]
fn explicit_dot_root_is_searched() {
    let g = config(GrabberSearchTypes::FileNames, true);
    let root = DirListing::Entries(vec![file("./.cfg/app.x", "app.x", EntryContents::NotLoaded)]);
    let rs = g.search_file_names_in_dir(b"app", &root).ok().unwrap();
    assert_eq!(strings(rs), vec!["./.cfg/app.x"]);
}

#[test]
fn subdirectory_contribution_is_contiguous_in_listing_position() {
    let g = config(GrabberSearchTypes::FContents, true);
    let listing = DirListing::Entries(vec![
        file("./a", "a", EntryContents::Lines(lines(&["t"]))),
        dir(
            "./b",
            "b",
            DirListing::Entries(vec![
                file("./b/1", "1", EntryContents::Lines(lines(&["t"]))),
                file("./b/2", "2", EntryContents::Lines(lines(&["xt"]))),
            ]),
        ),
        file("./c", "c", EntryContents::Lines(lines(&["t"]))),
    ]);
    let rs = g.search_file_contents_in_dir(b"t", &listing).ok().unwrap();
    assert_eq!(
        positions(&rs),
        vec![
            ("./a".to_string(), 1, 1),
            ("./b/1".to_string(), 1, 1),
            ("./b/2".to_string(), 1, 2),
            ("./c".to_string(), 1, 1)
        ]
    );
}

#[test]
fn without_recursion_directories_are_not_entered() {
    let g = config(GrabberSearchTypes::FContents, false);
    let listing = DirListing::Entries(vec![dir(
        "./b",
        "b",
        DirListing::Entries(vec![file("./b/1", "1", EntryContents::Lines(lines(&["t"])))]),
    )]);
    assert!(g.search_file_contents_in_dir(b"t", &listing).ok().unwrap().is_empty());
}

#[test]
fn failing_subdirectory_fails_the_root() {
    let g = config(GrabberSearchTypes::FileNames, true);
    let listing = DirListing::Entries(vec![
        file("./a", "a", EntryContents::NotLoaded),
        dir("./b", "b", DirListing::Failed(FsError { path: b("./b"), cause: b("denied") })),
    ]);
    let e = g.search_file_names_in_dir(b"a", &listing).err().unwrap();
    assert_eq!(e.path, b("./b"));
    assert_eq!(e.cause, b("denied"));
    let root = DirListing::Failed(FsError { path: b("."), cause: b("gone") });
    assert_eq!(g.search_file_contents_in_dir(b"a", &root).err().unwrap().cause, b("gone"));
}

#[test]
fn repeated_search_gives_identical_output() {
    let g = config(GrabberSearchTypes::FContents, true);
    let listing = DirListing::Entries(vec![
        file("./a", "a", EntryContents::Lines(lines(&["t1", "u", "zt"]))),
        dir(
            "./b",
            "b",
            DirListing::Entries(vec![file("./b/1", "1", EntryContents::Lines(lines(&["tt"])))]),
        ),
    ]);
    let render = |rs: Vec<FileSearchResult>| -> Vec<Vec<u8>> { rs.iter().map(|r| r.render()).collect() };
    let first = render(g.search_file_contents_in_dir(b"t", &listing).ok().unwrap());
    let second = render(g.search_file_contents_in_dir(b"t", &listing).ok().unwrap());
    assert_eq!(first, second);
    assert_eq!(first.len(), 3);
}

#[test]
fn render_formats_path_line_column_text() {
    let r = FileSearchResult { file_path: b("./src/a.rs"), position: (12, 305), context: b("let x = 1;") };
    assert_eq!(String::from_utf8(r.render()).unwrap(), "./src/a.rs:12:305: let x = 1;");
    let z = FileSearchResult { file_path: b("f"), position: (1, 10), context: b("") };
    assert_eq!(String::from_utf8(z.render()).unwrap(), "f:1:10: ");
}

#[test]
fn decimal_digits() {
    let mut out = b("n=");
    push_decimal(0, &mut out);
    push_decimal(1234567890, &mut out);
    assert_eq!(out, b("n=01234567890"));
    let mut max = Vec::new();
    push_decimal(usize::MAX, &mut max);
    assert_eq!(String::from_utf8(max).unwrap(), usize::MAX.to_string());
}

#[test]
fn entries_are_ordered_by_name() {
    let v = vec![
        file("./b", "b", EntryContents::NotLoaded),
        file("./a.txt", "a.txt", EntryContents::NotLoaded),
        file("./B", "B", EntryContents::NotLoaded),
        file("./a", "a", EntryContents::NotLoaded),
        file("./_x", "_x", EntryContents::NotLoaded),
    ];
    let r = order_entries(v);
    let names: Vec<String> = r.iter().map(|e| String::from_utf8(e.name.clone()).unwrap()).collect();
    assert_eq!(names, vec!["B", "_x", "a", "a.txt", "b"]);
    assert!(order_entries(Vec::new()).is_empty());
    assert!(name_lt(&b("a"), &b("ab")));
    assert!(!name_lt(&b("ab"), &b("ab")));
    assert!(!name_lt(&b("b"), &b("ab")));
}

#[test]
fn ordering_does_not_depend_on_listing_order() {
    let names = |v: Vec<DirEntry>| -> Vec<Vec<u8>> { order_entries(v).into_iter().map(|e| e.name).collect() };
    let one = names(vec![
        file("./c", "c", EntryContents::NotLoaded),
        file("./a", "a", EntryContents::NotLoaded),
        file("./b", "b", EntryContents::NotLoaded),
    ]);
    let two = names(vec![
        file("./b", "b", EntryContents::NotLoaded),
        file("./c", "c", EntryContents::NotLoaded),
        file("./a", "a", EntryContents::NotLoaded),
    ]);
    assert_eq!(one, two);
}

#[test]
fn no_directory_means_current_directory() {
    assert_eq!(effective_roots(Vec::new()), vec!["./".to_string()]);
    assert_eq!(effective_roots(args(&["src", "tests"])), args(&["src", "tests"]));
}

#[test]
fn parse_flags_term_and_dirs() {
    match parse_args(&args(&["-rF", "-n", "  needle ", "src", "docs"])) {
        Invocation::Run { config, search, dirs } => {
            assert!(config.recursive);
            assert!(config.numbered);
            assert!(!config.verbose);
            assert!(matches!(config.search_type, GrabberSearchTypes::FileNames));
            assert_eq!(search, "needle");
            assert_eq!(dirs, args(&["src", "docs"]));
        },
        _ => panic!("expected a run"),
    }
    match parse_args(&args(&["-FC", "x"])) {
        Invocation::Run { config, dirs, .. } => {
            assert!(matches!(config.search_type, GrabberSearchTypes::FContents));
            assert!(!config.recursive);
            assert!(dirs.is_empty());
        },
        _ => panic!("expected a run"),
    }
}

#[test]
fn parse_help_unknown_and_missing() {
    assert!(matches!(parse_args(&args(&["-rh", "x"])), Invocation::Help));
    assert!(matches!(parse_args(&args(&["-r", "-q", "-h"])), Invocation::UnknownOption('q')));
    assert!(matches!(parse_args(&args(&["-hq"])), Invocation::Help));
    match parse_args(&args(&["-v"])) {
        Invocation::MissingSearch(g) => assert!(g.verbose),
        _ => panic!("expected a missing search term"),
    }
    assert!(matches!(parse_args(&Vec::new()), Invocation::MissingSearch(_)));
    match parse_args(&args(&["-", "t"])) {
        Invocation::Run { search, .. } => assert_eq!(search, "t"),
        _ => panic!("expected a run"),
    }
}

#[test]
fn default_configuration_searches_contents() {
    let g = Grabber::default();
    assert!(matches!(g.search_type, GrabberSearchTypes::FContents));
    assert!(!g.recursive && !g.numbered && !g.verbose);
    assert!(matches!(GrabberSearchTypes::default(), GrabberSearchTypes::FContents));
}

#[test]
fn records_point_back_at_the_term() {
    let g = config(GrabberSearchTypes::FContents, true);
    let files = vec![
        ("./a", vec!["xx ab", "ab", "none", "ééab"]),
        ("./s/b", vec!["", "zzzab ab"]),
    ];
    let listing = DirListing::Entries(vec![
        file(files[0].0, "a", EntryContents::Lines(lines(&files[0].1))),
        dir(
            "./s",
            "s",
            DirListing::Entries(vec![file(files[1].0, "b", EntryContents::Lines(lines(&files[1].1)))]),
        ),
    ]);
    let rs = g.search_file_contents_in_dir(b"ab", &listing).ok().unwrap();
    assert_eq!(rs.len(), 4);
    for r in rs.iter() {
        let path = String::from_utf8(r.file_path.clone()).unwrap();
        let (_, ls) = files.iter().find(|(p, _)| *p == path).unwrap();
        let line = ls[r.position.0 - 1].as_bytes();
        assert_eq!(line, &r.context[..]);
        let c = r.position.1 - 1;
        assert_eq!(&line[c..c + 2], b"ab");
    }
    assert_eq!(rs[2].position, (4, 5));
}
