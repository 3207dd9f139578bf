use fanbox_dl_archive::post::date::PostDate;
use fanbox_dl_archive::post::descent::{read_dir_files, ArchiveError, MAX_DEPTH};
use fanbox_dl_archive::post::draft::{build_post, to_file_metas, to_file_sources, Post};
use fanbox_dl_archive::post::file::{FanboxDLFileMeta, FileMeta};
use fanbox_dl_archive::post::naming::{
    classify_directory, classify_with_date, read_date_prefix, read_plan, DirectoryKind,
    MalformedPlan,
};
use fanbox_dl_archive::post::{get_posts, read_fanbox_dl_archive, wants_listing, FanboxDLPost};
use fanbox_dl_archive::text::Reading;
use fanbox_dl_archive::tree::{Entry, EntryKind};
use std::path::PathBuf;

fn entry(parent: &str, name: &str, kind: EntryKind) -> Entry {
    Entry { name: name.to_string(), path: PathBuf::from(parent).join(name), kind }
}

fn file(parent: &str, name: &str) -> Entry {
    entry(parent, name, EntryKind::File { dimensions: None })
}

fn dir(parent: &str, name: &str, entries: Vec<Entry>) -> Entry {
    entry(parent, name, EntryKind::Directory { entries })
}

fn meta(name: &str, mime: &str) -> FileMeta {
    FileMeta::new(name.to_string(), mime.to_string(), None)
}

fn reference(parent: &str, name: &str, mime: &str) -> (FileMeta, PathBuf) {
    (meta(name, mime), PathBuf::from(parent).join(name))
}

/// A chain of directories `d2`, `d3`, ... below `parent`, each holding one
/// file named after its level, down to `deepest`.
fn chain(parent: &str, level: usize, deepest: usize) -> Vec<Entry> {
    let mut entries = vec![file(parent, &format!("f{}.txt", level))];
    if level < deepest {
        let name = format!("d{}", level + 1);
        let below = format!("{}/{}", parent, name);
        entries.push(dir(parent, &name, chain(&below, level + 1, deepest)));
    }
    entries
}

#[test]
fn plan_directories_are_digits_and_yen() {
    assert_eq!(read_plan("123yen"), Reading::Value(123));
    assert_eq!(read_plan("0100yen"), Reading::Value(100));
    assert_eq!(read_plan("abcyen"), Reading::NotANumber);
    assert_eq!(read_plan("yen"), Reading::NotANumber);
    assert_eq!(read_plan("100yenyen"), Reading::NotANumber);
    assert_eq!(read_plan("+100yen"), Reading::NotANumber);
    assert_eq!(read_plan("100 yen"), Reading::NotANumber);
    assert_eq!(read_plan("100Yen"), Reading::NotANumber);
    assert_eq!(read_plan("100"), Reading::NotANumber);
    assert_eq!(read_plan(""), Reading::NotANumber);
    assert_eq!(read_plan("１２yen"), Reading::NotANumber);
    assert_eq!(read_plan("4294967296yen"), Reading::TooLarge);
}

#[test]
fn a_numeric_prefix_gives_a_plan() {
    assert_eq!(classify_directory("123yen"), Ok(DirectoryKind::Plan(123)));
    assert_eq!(classify_directory("4294967295yen"), Ok(DirectoryKind::Plan(4294967295)));
}

#[test]
fn a_prefix_that_is_no_number_never_gives_a_plan() {
    assert_eq!(classify_directory("abcyen"), Ok(DirectoryKind::Ignored));
    assert_eq!(classify_directory("yen"), Ok(DirectoryKind::Ignored));
    assert_eq!(classify_directory("12a4yen"), Ok(DirectoryKind::Ignored));
}

#[test]
fn a_price_that_is_too_large_is_malformed() {
    assert_eq!(classify_directory("4294967296yen"), Err(MalformedPlan));
    assert_eq!(classify_directory("99999999999999999999yen"), Err(MalformedPlan));
}

#[test]
fn a_date_prefix_gives_a_post() {
    assert_eq!(
        classify_directory("2024-05-01-Birthday"),
        Ok(DirectoryKind::Post(PostDate { year: 2024, month: 5, day: 1 }, "Birthday".to_string()))
    );
    assert_eq!(
        classify_directory("1999-12-31-"),
        Ok(DirectoryKind::Post(PostDate { year: 1999, month: 12, day: 31 }, String::new()))
    );
    assert_eq!(
        classify_directory("2024-02-29-誕生日 🎂"),
        Ok(DirectoryKind::Post(
            PostDate { year: 2024, month: 2, day: 29 },
            "誕生日 🎂".to_string()
        ))
    );
}

#[test]
fn names_without_a_date_are_ignored() {
    assert_eq!(classify_directory("misc"), Ok(DirectoryKind::Ignored));
    assert_eq!(classify_directory(""), Ok(DirectoryKind::Ignored));
    assert_eq!(classify_directory("2024-05-01"), Ok(DirectoryKind::Ignored));
    assert_eq!(classify_directory("2024-13-01-x"), Ok(DirectoryKind::Ignored));
    assert_eq!(classify_directory("2023-02-29-x"), Ok(DirectoryKind::Ignored));
    assert_eq!(classify_directory("2024/05/01-x"), Ok(DirectoryKind::Ignored));
    assert_eq!(classify_directory("日本語の名前でも十一文字以上"), Ok(DirectoryKind::Ignored));
}

#[test]
fn the_plan_pattern_is_tried_before_the_date() {
    assert_eq!(
        classify_directory("2024-05-01-100yen"),
        Ok(DirectoryKind::Post(PostDate { year: 2024, month: 5, day: 1 }, "100yen".to_string()))
    );
    assert_eq!(classify_directory("2024yen"), Ok(DirectoryKind::Plan(2024)));
}

#[test]
fn date_prefixes_are_read_off_the_first_eleven_characters() {
    assert_eq!(
        read_date_prefix("2024-05-01-Birthday"),
        Some(PostDate { year: 2024, month: 5, day: 1 })
    );
    assert_eq!(read_date_prefix("2024-05-01"), None);
    assert_eq!(read_date_prefix("2024-05-32-x"), None);
    assert_eq!(read_date_prefix("Birthday-2024-05-01-"), None);
}

#[test]
fn classification_follows_the_date_that_was_read() {
    let day = PostDate { year: 2020, month: 1, day: 2 };
    assert_eq!(
        classify_with_date("2020-01-02-Title", Some(day)),
        Ok(DirectoryKind::Post(day, "Title".to_string()))
    );
    assert_eq!(classify_with_date("2020-01-02-Title", None), Ok(DirectoryKind::Ignored));
    assert_eq!(classify_with_date("short", Some(day)), Ok(DirectoryKind::Ignored));
    assert_eq!(classify_with_date("500yen", Some(day)), Ok(DirectoryKind::Plan(500)));
    assert_eq!(classify_with_date("4294967296yen", Some(day)), Err(MalformedPlan));
}

#[test]
fn media_types_are_guessed_from_the_extension() {
    let guess = |name: &str| {
        FileMeta::from_path(name.to_string(), PathBuf::from("/x").join(name), None).0.mime
    };
    assert_eq!(guess("a.png"), "image/png");
    assert_eq!(guess("PHOTO.JPG"), "image/jpeg");
    assert_eq!(guess("notes.txt"), "text/plain");
    assert_eq!(guess("archive.tar.gz"), "application/gzip");
    assert_eq!(guess("noextension"), "application/octet-stream");
    assert_eq!(guess("odd.zzzzzz"), "application/octet-stream");
}

#[test]
fn file_metadata_keeps_name_path_and_size() {
    let (meta, path) =
        FileMeta::from_path("a.png".to_string(), PathBuf::from("/in/a.png"), Some((640, 480)));
    assert_eq!(
        meta,
        FileMeta {
            filename: "a.png".to_string(),
            mime: "image/png".to_string(),
            dimensions: Some((640, 480)),
        }
    );
    assert_eq!(path, PathBuf::from("/in/a.png"));
    assert_eq!(meta.clone(), meta);
}

#[test]
fn files_come_before_the_files_of_subdirectories() {
    let entries = vec![
        dir("/g", "sub", vec![file("/g/sub", "deep.txt")]),
        file("/g", "a.png"),
        dir("/g", "other", vec![file("/g/other", "b.png")]),
        file("/g", "z.txt"),
    ];
    assert_eq!(
        read_dir_files(&entries, 1).unwrap(),
        vec![
            reference("/g", "a.png", "image/png"),
            reference("/g", "z.txt", "text/plain"),
            reference("/g/sub", "deep.txt", "text/plain"),
            reference("/g/other", "b.png", "image/png"),
        ]
    );
}

#[test]
fn the_descent_stops_at_the_depth_limit() {
    assert_eq!(MAX_DEPTH, 5);
    let entries = chain("/g", 1, 8);
    let found = read_dir_files(&entries, 1).unwrap();
    let names: Vec<String> = found.iter().map(|(meta, _)| meta.filename.clone()).collect();
    assert_eq!(names, vec!["f1.txt", "f2.txt", "f3.txt", "f4.txt", "f5.txt"]);
    assert_eq!(found[4].1, PathBuf::from("/g/d2/d3/d4/d5/f5.txt"));
}

#[test]
fn nothing_is_read_above_the_depth_limit() {
    let entries = vec![file("/g", "a.txt"), entry("/g", "odd", EntryKind::Unknown)];
    assert_eq!(read_dir_files(&entries, 6).unwrap(), vec![]);
    assert_eq!(read_dir_files(&entries, 5).unwrap_err(), ArchiveError::UnknownEntryType(PathBuf::from("/g/odd")));
}

#[test]
fn hidden_entries_are_passed_over_at_every_level() {
    let entries = vec![
        file("/g", ".hidden"),
        dir("/g", ".cache", vec![file("/g/.cache", "x.txt")]),
        entry("/g", ".lost", EntryKind::Unknown),
        entry("/g", ".locked", EntryKind::Unreadable),
        entry("/g", "socket", EntryKind::Other),
        dir("/g", "sub", vec![file("/g/sub", ".secret"), file("/g/sub", "seen.txt")]),
    ];
    assert_eq!(
        read_dir_files(&entries, 1).unwrap(),
        vec![reference("/g/sub", "seen.txt", "text/plain")]
    );
}

#[test]
fn an_unreadable_directory_within_the_limit_fails() {
    let entries = vec![file("/g", "a.txt"), entry("/g", "locked", EntryKind::Unreadable)];
    assert_eq!(
        read_dir_files(&entries, 4).unwrap_err(),
        ArchiveError::UnreadableDirectory(PathBuf::from("/g/locked"))
    );
    assert_eq!(read_dir_files(&entries, 5).unwrap(), vec![reference("/g", "a.txt", "text/plain")]);
}

#[test]
fn an_entry_of_unknown_type_fails_before_any_subdirectory_is_read() {
    let entries = vec![
        entry("/g", "locked", EntryKind::Unreadable),
        entry("/g", "odd", EntryKind::Unknown),
    ];
    assert_eq!(
        read_dir_files(&entries, 1).unwrap_err(),
        ArchiveError::UnknownEntryType(PathBuf::from("/g/odd"))
    );
}

#[test]
fn a_creator_is_split_into_groups() {
    let entries = vec![
        file("/in/alice", "loose.png"),
        dir("/in/alice", "500yen", vec![file("/in/alice/500yen", "plan.txt")]),
        dir("/in/alice", "misc", vec![file("/in/alice/misc", "ignored.txt")]),
        dir(
            "/in/alice",
            "2024-05-01-Birthday",
            vec![
                file("/in/alice/2024-05-01-Birthday", "cake.jpg"),
                dir(
                    "/in/alice/2024-05-01-Birthday",
                    "extras",
                    vec![file("/in/alice/2024-05-01-Birthday/extras", "candle.jpg")],
                ),
            ],
        ),
        file("/in/alice", ".DS_Store"),
        file("/in/alice", "note.txt"),
    ];
    assert_eq!(
        read_fanbox_dl_archive(&entries).unwrap(),
        vec![
            FanboxDLPost::GroupByPlan(500, vec![reference("/in/alice/500yen", "plan.txt", "text/plain")]),
            FanboxDLPost::GroupByPost(
                PostDate { year: 2024, month: 5, day: 1 },
                "Birthday".to_string(),
                vec![
                    reference("/in/alice/2024-05-01-Birthday", "cake.jpg", "image/jpeg"),
                    reference("/in/alice/2024-05-01-Birthday/extras", "candle.jpg", "image/jpeg"),
                ]
            ),
            FanboxDLPost::Ungroup(vec![
                reference("/in/alice", "loose.png", "image/png"),
                reference("/in/alice", "note.txt", "text/plain"),
            ]),
        ]
    );
}

#[test]
fn empty_groups_are_dropped() {
    let entries = vec![
        dir("/in/a", "100yen", vec![]),
        dir("/in/a", "200yen", vec![file("/in/a/200yen", ".hidden")]),
        dir("/in/a", "2024-05-01-Empty", vec![dir("/in/a/2024-05-01-Empty", "sub", vec![])]),
    ];
    assert_eq!(read_fanbox_dl_archive(&entries).unwrap(), vec![]);
    assert_eq!(read_fanbox_dl_archive(&vec![]).unwrap(), vec![]);
    assert!(get_posts("/in/a", 1, 2, &entries).unwrap().is_empty());
}

#[test]
fn a_group_holds_the_files_within_five_levels() {
    let entries = vec![dir("/in/a", "100yen", chain("/in/a/100yen", 1, 7))];
    let groups = read_fanbox_dl_archive(&entries).unwrap();
    assert_eq!(groups.len(), 1);
    match &groups[0] {
        FanboxDLPost::GroupByPlan(price, files) => {
            assert_eq!(*price, 100);
            assert_eq!(files.len(), 5);
            assert_eq!(files[4].1, PathBuf::from("/in/a/100yen/d2/d3/d4/d5/f5.txt"));
        }
        other => panic!("unexpected group {:?}", other),
    }
}

#[test]
fn ignored_directories_are_never_read() {
    let entries = vec![
        entry("/in/a", "misc", EntryKind::Unreadable),
        dir("/in/a", "stuff", vec![entry("/in/a/stuff", "odd", EntryKind::Unknown)]),
        entry("/in/a", "pipe", EntryKind::Other),
    ];
    assert_eq!(read_fanbox_dl_archive(&entries).unwrap(), vec![]);
}

#[test]
fn a_group_directory_that_cannot_be_read_fails_the_creator() {
    let entries = vec![
        file("/in/a", "loose.txt"),
        entry("/in/a", "100yen", EntryKind::Unreadable),
    ];
    assert_eq!(
        read_fanbox_dl_archive(&entries).unwrap_err(),
        ArchiveError::UnreadableDirectory(PathBuf::from("/in/a/100yen"))
    );
    let nested = vec![dir(
        "/in/a",
        "2024-05-01-Post",
        vec![entry("/in/a/2024-05-01-Post", "locked", EntryKind::Unreadable)],
    )];
    assert_eq!(
        read_fanbox_dl_archive(&nested).unwrap_err(),
        ArchiveError::UnreadableDirectory(PathBuf::from("/in/a/2024-05-01-Post/locked"))
    );
}

#[test]
fn a_malformed_plan_fails_the_creator() {
    let entries = vec![
        dir("/in/a", "100yen", vec![file("/in/a/100yen", "a.txt")]),
        entry("/in/a", "99999999999yen", EntryKind::Unreadable),
    ];
    assert_eq!(
        read_fanbox_dl_archive(&entries).unwrap_err(),
        ArchiveError::MalformedPlanTier(PathBuf::from("/in/a/99999999999yen"))
    );
    assert_eq!(
        get_posts("/in/a", 1, 2, &entries).unwrap_err(),
        ArchiveError::MalformedPlanTier(PathBuf::from("/in/a/99999999999yen"))
    );
}

#[test]
fn an_entry_of_unknown_type_fails_the_creator() {
    let entries = vec![
        entry("/in/a", "odd", EntryKind::Unknown),
        entry("/in/a", "100yen", EntryKind::Unreadable),
    ];
    assert_eq!(
        read_fanbox_dl_archive(&entries).unwrap_err(),
        ArchiveError::UnknownEntryType(PathBuf::from("/in/a/odd"))
    );
}

#[test]
fn the_first_failure_in_the_order_of_the_entries_is_reported() {
    let entries = vec![
        entry("/in/a", "100yen", EntryKind::Unreadable),
        entry("/in/a", "odd", EntryKind::Unknown),
    ];
    assert_eq!(
        read_fanbox_dl_archive(&entries).unwrap_err(),
        ArchiveError::UnreadableDirectory(PathBuf::from("/in/a/100yen"))
    );
}

#[test]
fn posts_carry_source_title_tags_and_dates() {
    let entries = vec![
        file("/in/alice", "loose.png"),
        dir("/in/alice", "500yen", vec![file("/in/alice/500yen", "plan.txt")]),
        dir(
            "/in/alice",
            "2024-05-01-Birthday",
            vec![entry(
                "/in/alice/2024-05-01-Birthday",
                "cake.jpg",
                EntryKind::File { dimensions: Some((800, 600)) },
            )],
        ),
    ];
    let posts = get_posts("/in/alice", 4, 11, &entries).unwrap();
    assert_eq!(posts.len(), 3);
    let day = PostDate { year: 2024, month: 5, day: 1 };
    assert_eq!(
        posts[0].0,
        Post {
            author: 11,
            platform: 4,
            source: "/in/alice - 500yen".to_string(),
            title: "{}yen fanbox archive".to_string(),
            tags: vec!["fanbox-dl".to_string()],
            published: None,
            updated: None,
            content: vec![meta("plan.txt", "text/plain")],
        }
    );
    assert_eq!(
        posts[0].1,
        vec![("plan.txt".to_string(), PathBuf::from("/in/alice/500yen/plan.txt"))]
    );
    assert!(posts.iter().all(|(post, sources)| post.content.len() == sources.len()));
    assert_eq!(
        posts[1].0,
        Post {
            author: 11,
            platform: 4,
            source: "/in/alice - Birthday".to_string(),
            title: "Birthday".to_string(),
            tags: vec!["fanbox-dl".to_string()],
            published: Some(day),
            updated: Some(day),
            content: vec![FileMeta::new(
                "cake.jpg".to_string(),
                "image/jpeg".to_string(),
                Some((800, 600))
            )],
        }
    );
    assert_eq!(
        posts[2].0,
        Post {
            author: 11,
            platform: 4,
            source: "/in/alice".to_string(),
            title: "Fanbox archive".to_string(),
            tags: vec!["fanbox-dl".to_string()],
            published: None,
            updated: None,
            content: vec![meta("loose.png", "image/png")],
        }
    );
    assert_eq!(
        posts[2].1,
        vec![("loose.png".to_string(), PathBuf::from("/in/alice/loose.png"))]
    );
}

#[test]
fn no_post_is_without_content() {
    let entries = vec![
        dir("/in/a", "100yen", vec![]),
        dir("/in/a", "200yen", vec![file("/in/a/200yen", "a.txt")]),
        dir("/in/a", "2024-05-01-Empty", vec![]),
    ];
    let posts = get_posts("/in/a", 1, 1, &entries).unwrap();
    assert_eq!(posts.len(), 1);
    assert_eq!(posts[0].0.source, "/in/a - 200yen");
    assert!(posts.iter().all(|(post, _)| !post.content.is_empty()));
}

#[test]
fn files_of_one_name_keep_each_their_source() {
    let files = vec![
        reference("/g", "a.png", "image/png"),
        reference("/g", "b.png", "image/png"),
        reference("/g/sub", "a.png", "image/png"),
        reference("/g/sub", "c.png", "image/png"),
        reference("/g/other", "a.png", "image/png"),
    ];
    assert_eq!(
        to_file_metas(&files),
        vec![
            meta("a.png", "image/png"),
            meta("b.png", "image/png"),
            meta("a.png", "image/png"),
            meta("c.png", "image/png"),
            meta("a.png", "image/png"),
        ]
    );
    assert_eq!(
        to_file_sources(files),
        vec![
            ("a.png".to_string(), PathBuf::from("/g/a.png")),
            ("b.png".to_string(), PathBuf::from("/g/b.png")),
            ("a.png".to_string(), PathBuf::from("/g/sub/a.png")),
            ("c.png".to_string(), PathBuf::from("/g/sub/c.png")),
            ("a.png".to_string(), PathBuf::from("/g/other/a.png")),
        ]
    );
    assert_eq!(to_file_sources(vec![]), vec![]);
}

#[test]
fn a_post_has_one_source_for_every_content_entry() {
    let entries = vec![dir(
        "/c",
        "100yen",
        vec![
            dir("/c/100yen", "a", vec![file("/c/100yen/a", "img.png")]),
            dir("/c/100yen", "b", vec![file("/c/100yen/b", "img.png")]),
        ],
    )];
    let posts = get_posts("/c", 1, 2, &entries).unwrap();
    assert_eq!(posts.len(), 1);
    let (post, sources) = &posts[0];
    assert_eq!(post.content, vec![meta("img.png", "image/png"), meta("img.png", "image/png")]);
    assert_eq!(
        sources,
        &vec![
            ("img.png".to_string(), PathBuf::from("/c/100yen/a/img.png")),
            ("img.png".to_string(), PathBuf::from("/c/100yen/b/img.png")),
        ]
    );
}

#[test]
fn only_directories_that_are_read_are_wanted() {
    assert!(wants_listing("100yen", 1));
    assert!(wants_listing("2024-05-01-Birthday", 1));
    assert!(!wants_listing("misc", 1));
    assert!(!wants_listing("4294967296yen", 1));
    assert!(!wants_listing(".100yen", 1));
    assert!(wants_listing("misc", 2));
    assert!(wants_listing("misc", 5));
    assert!(!wants_listing("misc", 6));
    assert!(!wants_listing(".misc", 2));
    assert!(!wants_listing("100yen", 0));
}

#[test]
fn what_an_unwanted_directory_holds_changes_nothing() {
    let full = vec![
        dir("/c", "misc", vec![entry("/c/misc", "odd", EntryKind::Unknown)]),
        dir("/c", "100yen", chain("/c/100yen", 1, 7)),
        entry("/c", ".git", EntryKind::Unreadable),
    ];
    let mut pruned_chain = chain("/c/100yen", 1, 5);
    {
        // The directory at the sixth level, handed over without entries.
        let mut at = &mut pruned_chain;
        for _ in 1..5 {
            at = match &mut at[1].kind {
                EntryKind::Directory { entries } => entries,
                other => panic!("unexpected entry {:?}", other),
            };
        }
        at.push(dir("/c/100yen/d2/d3/d4/d5", "d6", vec![]));
    }
    let pruned = vec![
        dir("/c", "misc", vec![]),
        dir("/c", "100yen", pruned_chain),
        entry("/c", ".git", EntryKind::Unknown),
    ];
    assert_eq!(read_fanbox_dl_archive(&full).unwrap(), read_fanbox_dl_archive(&pruned).unwrap());
}

#[test]
fn a_plan_post_is_keyed_by_its_price() {
    let group = FanboxDLPost::GroupByPlan(1200, vec![reference("/c/1200yen", "a.txt", "text/plain")]);
    let (post, map) = build_post(group, "/c", 2, 3);
    assert_eq!(post.source, "/c - 1200yen");
    assert_eq!(post.title, "{}yen fanbox archive");
    assert_eq!(post.published, None);
    assert_eq!(map, vec![("a.txt".to_string(), PathBuf::from("/c/1200yen/a.txt"))]);
}

#[test]
fn every_file_within_reach_stands_in_exactly_one_group() {
    let entries = vec![
        file("/c", "loose.txt"),
        dir("/c", "100yen", chain("/c/100yen", 1, 6)),
        dir(
            "/c",
            "2024-05-01-Post",
            vec![
                file("/c/2024-05-01-Post", "a.png"),
                dir("/c/2024-05-01-Post", "x", vec![file("/c/2024-05-01-Post/x", "a.png")]),
                dir("/c/2024-05-01-Post", "y", vec![file("/c/2024-05-01-Post/y", "a.png")]),
            ],
        ),
        dir("/c", "other", vec![file("/c/other", "out_of_scope.txt")]),
    ];
    let groups = read_fanbox_dl_archive(&entries).unwrap();
    let mut paths: Vec<PathBuf> = vec![];
    for group in &groups {
        let files = match group {
            FanboxDLPost::Ungroup(files) => files,
            FanboxDLPost::GroupByPlan(_, files) => files,
            FanboxDLPost::GroupByPost(_, _, files) => files,
        };
        paths.extend(files.iter().map(|(_, path)| path.clone()));
    }
    let mut expected = vec![
        PathBuf::from("/c/100yen/f1.txt"),
        PathBuf::from("/c/100yen/d2/f2.txt"),
        PathBuf::from("/c/100yen/d2/d3/f3.txt"),
        PathBuf::from("/c/100yen/d2/d3/d4/f4.txt"),
        PathBuf::from("/c/100yen/d2/d3/d4/d5/f5.txt"),
        PathBuf::from("/c/2024-05-01-Post/a.png"),
        PathBuf::from("/c/2024-05-01-Post/x/a.png"),
        PathBuf::from("/c/2024-05-01-Post/y/a.png"),
        PathBuf::from("/c/loose.txt"),
    ];
    assert_eq!(paths, expected);
    paths.sort();
    paths.dedup();
    expected.sort();
    assert_eq!(paths, expected);
}

#[test]
fn a_second_run_asks_for_the_same_posts() {
    let entries = vec![
        file("/c", "loose.txt"),
        dir("/c", "100yen", vec![file("/c/100yen", "a.txt")]),
        dir("/c", "2024-05-01-Post", vec![file("/c/2024-05-01-Post", "a.png")]),
    ];
    let first = get_posts("/c", 1, 2, &entries).unwrap();
    let second = get_posts("/c", 1, 2, &entries).unwrap();
    assert_eq!(first, second);
    let mut keys: Vec<(u32, String)> =
        first.iter().map(|(post, _)| (post.platform, post.source.clone())).collect();
    keys.sort();
    keys.dedup();
    assert_eq!(keys.len(), 3);
}
