use fanbox_dl_archive::config::{contains_name, Config, TransformMethod};
use fanbox_dl_archive::creator::{
    author_request, display_creators, get_creators, sorted_names, sync_creators, AuthorRequest,
    CreatorAction, CreatorEvent, CreatorPhase, CreatorSync,
};
use fanbox_dl_archive::post::descent::ArchiveError;
use fanbox_dl_archive::tree::{Entry, EntryKind};
use std::collections::HashMap;
use std::path::PathBuf;

fn names(list: &[&str]) -> Vec<String> {
    list.iter().map(|name| name.to_string()).collect()
}

fn config(allow: &[&str], deny: &[&str]) -> Config {
    Config::new(
        PathBuf::from("/in"),
        PathBuf::from("/out"),
        false,
        TransformMethod::Copy,
        names(allow),
        names(deny),
        5,
    )
}

fn entry(name: &str, kind: EntryKind) -> Entry {
    Entry { name: name.to_string(), path: PathBuf::from("/in").join(name), kind }
}

fn dir(name: &str) -> Entry {
    entry(name, EntryKind::Directory { entries: vec![] })
}

#[test]
fn transform_method_defaults_to_copy() {
    assert_eq!(TransformMethod::default(), TransformMethod::Copy);
}

#[test]
fn transform_method_names() {
    assert_eq!(TransformMethod::Copy.to_string(), "Copy");
    assert_eq!(TransformMethod::Move.to_string(), "Move");
    assert_eq!(TransformMethod::Hardlink.to_string(), "Hardlink");
}

#[test]
fn config_hands_back_its_settings() {
    let config = Config::new(
        PathBuf::from("/in"),
        PathBuf::from("/out"),
        true,
        TransformMethod::Hardlink,
        vec![],
        vec![],
        9,
    );
    assert_eq!(config.input(), &PathBuf::from("/in"));
    assert_eq!(config.output(), &PathBuf::from("/out"));
    assert!(config.overwrite());
    assert_eq!(config.transform(), TransformMethod::Hardlink);
    assert_eq!(config.limit(), 9);
}

#[test]
fn contains_name_compares_whole_names() {
    let list = names(&["alice", "bob"]);
    assert!(contains_name(&list, &"bob".to_string()));
    assert!(!contains_name(&list, &"bo".to_string()));
    assert!(!contains_name(&vec![], &"bob".to_string()));
}

#[test]
fn allow_list_and_deny_list() {
    let config = config(&["alice"], &["bob"]);
    assert!(config.filter_creator(&"alice".to_string()));
    assert!(!config.filter_creator(&"bob".to_string()));
    assert!(!config.filter_creator(&"carol".to_string()));
}

#[test]
fn empty_allow_list_takes_everyone_not_denied() {
    let config = config(&[], &["bob"]);
    assert!(config.filter_creator(&"alice".to_string()));
    assert!(config.filter_creator(&"carol".to_string()));
    assert!(!config.filter_creator(&"bob".to_string()));
}

#[test]
fn deny_list_wins_over_allow_list() {
    let config = config(&["alice", "bob"], &["bob"]);
    assert!(config.filter_creator(&"alice".to_string()));
    assert!(!config.filter_creator(&"bob".to_string()));
}

#[test]
fn creators_are_the_visible_directories() {
    let entries = vec![
        dir(".git"),
        entry("readme.txt", EntryKind::File { dimensions: None }),
        dir("bob"),
        entry("link", EntryKind::Other),
        dir("alice"),
        entry("carol", EntryKind::Unreadable),
        entry(".cache", EntryKind::Unknown),
    ];
    let found = get_creators(&config(&[], &[]), &entries).unwrap();
    assert_eq!(
        found.creators,
        vec![
            ("bob".to_string(), PathBuf::from("/in/bob")),
            ("alice".to_string(), PathBuf::from("/in/alice")),
            ("carol".to_string(), PathBuf::from("/in/carol")),
        ]
    );
    assert_eq!(found.total, 3);
    assert_eq!(found.included(), 3);
    assert_eq!(found.excluded(), 0);
}

#[test]
fn creators_are_filtered_and_counted() {
    let entries = vec![dir("alice"), dir("bob"), dir("carol")];
    let found = get_creators(&config(&["alice"], &["bob"]), &entries).unwrap();
    assert_eq!(found.creators, vec![("alice".to_string(), PathBuf::from("/in/alice"))]);
    assert_eq!(found.total, 3);
    assert_eq!(found.included(), 1);
    assert_eq!(found.excluded(), 2);
}

#[test]
fn no_entries_no_creators() {
    let found = get_creators(&config(&[], &[]), &vec![]).unwrap();
    assert!(found.creators.is_empty());
    assert_eq!(found.total, 0);
    assert_eq!(found.excluded(), 0);
}

#[test]
fn an_entry_of_unknown_type_fails_the_discovery() {
    let entries = vec![dir("alice"), entry("odd", EntryKind::Unknown), entry("odder", EntryKind::Unknown)];
    let failure = get_creators(&config(&[], &[]), &entries).unwrap_err();
    assert_eq!(failure, ArchiveError::UnknownEntryType(PathBuf::from("/in/odd")));
}

#[test]
fn creators_are_sorted_by_bytes() {
    let creators = vec![
        ("bob".to_string(), PathBuf::from("/in/bob")),
        ("alice".to_string(), PathBuf::from("/in/alice")),
        ("Zed".to_string(), PathBuf::from("/in/Zed")),
        ("alice".to_string(), PathBuf::from("/in/alice2")),
    ];
    assert_eq!(sorted_names(&creators), names(&["Zed", "alice", "alice", "bob"]));
}

#[test]
fn creators_are_shown_in_a_frame() {
    let creators = vec![
        ("bob".to_string(), PathBuf::from("/in/bob")),
        ("alice".to_string(), PathBuf::from("/in/alice")),
        ("Zed".to_string(), PathBuf::from("/in/Zed")),
    ];
    assert_eq!(
        display_creators(&creators),
        names(&[
            "== Creator =============",
            " Zed",
            " alice",
            " bob",
            "========================",
            "",
        ])
    );
}

#[test]
fn no_creators_are_shown_as_an_empty_frame() {
    assert_eq!(
        display_creators(&[]),
        names(&["== Creator =============", "========================", ""])
    );
}

#[test]
fn author_request_names_the_public_page() {
    assert_eq!(
        author_request("alice", 7),
        AuthorRequest {
            name: "alice".to_string(),
            platform: 7,
            alias: "alice".to_string(),
            link: "https://alice.fanbox.cc/".to_string(),
        }
    );
}

#[test]
fn known_authors_are_used_and_unknown_ones_made() {
    let creators = vec![
        ("alice".to_string(), PathBuf::from("/in/alice")),
        ("bob".to_string(), PathBuf::from("/in/bob")),
    ];
    let state = CreatorSync::new(creators, 7);
    assert_eq!(state.phase(), CreatorPhase::Ready);
    let (state, action) = sync_creators(state, CreatorEvent::Start);
    assert_eq!(action, CreatorAction::Find { alias: "alice".to_string(), platform: 7 });
    assert_eq!(state.phase(), CreatorPhase::Finding);
    let (state, action) = sync_creators(state, CreatorEvent::Found(Some(3)));
    assert_eq!(action, CreatorAction::Find { alias: "bob".to_string(), platform: 7 });
    let (state, action) = sync_creators(state, CreatorEvent::Found(None));
    assert_eq!(action, CreatorAction::Create(author_request("bob", 7)));
    assert_eq!(state.phase(), CreatorPhase::Creating);
    let (state, action) = sync_creators(state, CreatorEvent::Created(9));
    assert_eq!(action, CreatorAction::Commit);
    assert_eq!(state.phase(), CreatorPhase::Committing);
    let (state, action) = sync_creators(state, CreatorEvent::Committed);
    assert_eq!(
        action,
        CreatorAction::Done(vec![
            (3, PathBuf::from("/in/alice")),
            (9, PathBuf::from("/in/bob")),
        ])
    );
    assert_eq!(state.phase(), CreatorPhase::Finished);
}

#[test]
fn without_creators_the_transaction_is_committed_at_once() {
    let state = CreatorSync::new(vec![], 1);
    let (state, action) = sync_creators(state, CreatorEvent::Start);
    assert_eq!(action, CreatorAction::Commit);
    let (_, action) = sync_creators(state, CreatorEvent::Committed);
    assert_eq!(action, CreatorAction::Done(vec![]));
}

#[test]
fn a_refusal_by_the_store_aborts_the_creators() {
    let creators = vec![("alice".to_string(), PathBuf::from("/in/alice"))];
    let (state, _) = sync_creators(CreatorSync::new(creators, 1), CreatorEvent::Start);
    let (state, action) = sync_creators(state, CreatorEvent::Failed);
    assert_eq!(action, CreatorAction::Abort);
    assert_eq!(state.phase(), CreatorPhase::Aborted);
    let (state, action) = sync_creators(state, CreatorEvent::Committed);
    assert_eq!(action, CreatorAction::Rejected);
    assert_eq!(state.phase(), CreatorPhase::Aborted);
}

#[test]
fn events_out_of_turn_are_rejected() {
    let creators = vec![("alice".to_string(), PathBuf::from("/in/alice"))];
    let state = CreatorSync::new(creators, 1);
    let (state, action) = sync_creators(state, CreatorEvent::Found(Some(1)));
    assert_eq!(action, CreatorAction::Rejected);
    assert_eq!(state.phase(), CreatorPhase::Ready);
    let (state, _) = sync_creators(state, CreatorEvent::Start);
    let (state, action) = sync_creators(state, CreatorEvent::Created(4));
    assert_eq!(action, CreatorAction::Rejected);
    let (state, action) = sync_creators(state, CreatorEvent::Start);
    assert_eq!(action, CreatorAction::Rejected);
    assert_eq!(state.phase(), CreatorPhase::Finding);
}

/// Synchronises `creators` against a store that finds before it makes, and
/// says how many authors it was asked to make.
fn run_against(store: &mut HashMap<(u32, String), u32>, creators: &[&str]) -> usize {
    let list = creators
        .iter()
        .map(|name| (name.to_string(), PathBuf::from("/in").join(name)))
        .collect();
    let mut made = 0;
    let mut state = CreatorSync::new(list, 7);
    let mut event = CreatorEvent::Start;
    loop {
        let (next, action) = sync_creators(state, event);
        state = next;
        event = match action {
            CreatorAction::Find { alias, platform } => {
                CreatorEvent::Found(store.get(&(platform, alias)).copied())
            }
            CreatorAction::Create(request) => {
                made += 1;
                let author = 100 + store.len() as u32;
                store.insert((request.platform, request.alias), author);
                CreatorEvent::Created(author)
            }
            CreatorAction::Commit => CreatorEvent::Committed,
            CreatorAction::Done(authors) => {
                assert_eq!(authors.len(), creators.len());
                return made;
            }
            other => panic!("unexpected action {:?}", other),
        };
    }
}

#[test]
fn a_second_run_makes_no_author() {
    let mut store = HashMap::new();
    store.insert((7, "bob".to_string()), 1);
    assert_eq!(run_against(&mut store, &["alice", "bob", "carol", "alice"]), 2);
    let after_first = store.clone();
    assert_eq!(run_against(&mut store, &["alice", "bob", "carol", "alice"]), 0);
    assert_eq!(store, after_first);
    assert_eq!(store.len(), 3);
}
