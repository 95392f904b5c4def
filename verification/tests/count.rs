use tbunread::count::{count_all, CountError, Visit};
use tbunread::path::{AccountError, Component, Special};

fn name(text: &str) -> Component {
    Component::Normal(text.to_string())
}

fn root() -> Vec<Component> {
    vec![Component::RootDir, name("mail")]
}

fn below(parts: &[&str]) -> Vec<Component> {
    let mut path = root();
    for part in parts {
        path.push(name(part));
    }
    path
}

fn shown(parts: &[&str]) -> String {
    format!("/mail/{}", parts.join("/"))
}

fn file(parts: &[&str], text: &str) -> Visit {
    Visit::File { path: below(parts), shown: shown(parts), contents: Ok(text.to_string()) }
}

fn unreadable(parts: &[&str], reason: &str) -> Visit {
    Visit::File { path: below(parts), shown: shown(parts), contents: Err(reason.to_string()) }
}

fn totals(visits: &Vec<Visit>) -> Vec<usize> {
    count_all(&root(), visits).unwrap().totals().clone()
}

#[test]
fn two_accounts_one_file_each() {
    let visits = vec![
        file(&["alice", "INBOX.msf"], "(^A2=5)"),
        file(&["bob", "Sent.msf"], "(^A2=1) then (^A2=A)"),
    ];
    let count = count_all(&root(), &visits).unwrap();
    assert_eq!(count.totals(), &vec![5, 10]);
    assert_eq!(count.display(), "5 10");
}

#[test]
fn empty_root_gives_empty_line() {
    let count = count_all(&root(), &vec![]).unwrap();
    assert_eq!(count.totals(), &Vec::<usize>::new());
    assert_eq!(count.display(), "");
}

#[test]
fn files_of_one_account_are_summed() {
    let visits = vec![
        file(&["alice", "INBOX.msf"], "(^A2=5)"),
        file(&["alice", "Lists", "rust.msf"], "(^A2=2)"),
        file(&["alice", "Trash.msf"], "(^A2=10)"),
    ];
    assert_eq!(totals(&visits), vec![5 + 2 + 16]);
}

#[test]
fn snapshot_is_sorted_by_account_whatever_the_walk() {
    let a = || file(&["alice", "INBOX.msf"], "(^A2=1)");
    let b = || file(&["bob", "INBOX.msf"], "(^A2=2)");
    let c = || file(&["carol", "INBOX.msf"], "(^A2=3)");
    assert_eq!(totals(&vec![a(), b(), c()]), vec![1, 2, 3]);
    assert_eq!(totals(&vec![a(), c(), b()]), vec![1, 2, 3]);
    assert_eq!(totals(&vec![b(), a(), c()]), vec![1, 2, 3]);
    assert_eq!(totals(&vec![b(), c(), a()]), vec![1, 2, 3]);
    assert_eq!(totals(&vec![c(), a(), b()]), vec![1, 2, 3]);
    assert_eq!(totals(&vec![c(), b(), a()]), vec![1, 2, 3]);
}

#[test]
fn accounts_are_ordered_by_bytes() {
    let visits = vec![
        file(&["bob", "x.msf"], "(^A2=1)"),
        file(&["Zed", "x.msf"], "(^A2=2)"),
        file(&["alice", "x.msf"], "(^A2=3)"),
        file(&["al", "x.msf"], "(^A2=4)"),
        file(&["\u{e9}mile", "x.msf"], "(^A2=5)"),
        file(&["10", "x.msf"], "(^A2=6)"),
        file(&["9", "x.msf"], "(^A2=7)"),
    ];
    // "10" < "9" < "Zed" < "al" < "alice" < "bob" < "émile"
    assert_eq!(totals(&visits), vec![6, 7, 2, 4, 3, 1, 5]);
}

#[test]
fn interleaved_files_go_to_their_accounts() {
    let visits = vec![
        file(&["bob", "a.msf"], "(^A2=1)"),
        file(&["alice", "a.msf"], "(^A2=10)"),
        file(&["bob", "b.msf"], "(^A2=2)"),
        file(&["alice", "b.msf"], "(^A2=20)"),
        file(&["bob", "c.msf"], "(^A2=3)"),
    ];
    assert_eq!(totals(&visits), vec![0x30, 6]);
}

#[test]
fn file_without_marker_adds_zero() {
    let visits = vec![
        file(&["alice", "INBOX.msf"], "(^A2=5)"),
        file(&["alice", "Empty.msf"], "nothing to see"),
        file(&["bob", "Empty.msf"], ""),
    ];
    let count = count_all(&root(), &visits).unwrap();
    assert_eq!(count.totals(), &vec![5, 0]);
    assert_eq!(count.display(), "5 0");
}

#[test]
fn same_walk_same_snapshot() {
    let visits = vec![
        file(&["bob", "a.msf"], "(^A2=1)"),
        file(&["alice", "a.msf"], "(^A2=10)"),
        file(&["bob", "b.msf"], "(^A2=2)"),
    ];
    let first = count_all(&root(), &visits).unwrap();
    let second = count_all(&root(), &visits).unwrap();
    assert_eq!(first.totals(), second.totals());
    assert_eq!(first.display(), second.display());
}

#[test]
fn unreadable_file_aborts_the_pass() {
    let visits = vec![
        file(&["alice", "INBOX.msf"], "(^A2=5)"),
        unreadable(&["bob", "Sent.msf"], "stream did not contain valid UTF-8"),
        file(&["carol", "INBOX.msf"], "(^A2=1)"),
    ];
    assert_eq!(
        count_all(&root(), &visits).unwrap_err(),
        CountError::Unreadable {
            path: "/mail/bob/Sent.msf".to_string(),
            reason: "stream did not contain valid UTF-8".to_string(),
        }
    );
}

#[test]
fn unreadable_file_aborts_wherever_it_stands() {
    let bad = || unreadable(&["bob", "Sent.msf"], "denied");
    let good = || file(&["alice", "INBOX.msf"], "(^A2=5)");
    assert!(count_all(&root(), &vec![bad()]).is_err());
    assert!(count_all(&root(), &vec![bad(), good()]).is_err());
    assert!(count_all(&root(), &vec![good(), bad()]).is_err());
    assert!(count_all(&root(), &vec![good(), good(), bad(), good()]).is_err());
}

#[test]
fn place_that_could_not_be_entered_aborts_the_pass() {
    let visits = vec![
        file(&["alice", "INBOX.msf"], "(^A2=5)"),
        Visit::Unreachable { shown: "/mail/secret".to_string(), reason: "Permission denied".to_string() },
    ];
    assert_eq!(
        count_all(&root(), &visits).unwrap_err(),
        CountError::Walk { path: "/mail/secret".to_string(), reason: "Permission denied".to_string() }
    );
}

#[test]
fn path_without_account_aborts_the_pass() {
    let outside = Visit::File {
        path: vec![Component::RootDir, name("elsewhere"), name("x.msf")],
        shown: "/elsewhere/x.msf".to_string(),
        contents: Ok("(^A2=1)".to_string()),
    };
    assert_eq!(
        count_all(&root(), &vec![outside]).unwrap_err(),
        CountError::Account { path: "/elsewhere/x.msf".to_string(), error: AccountError::NotUnderRoot }
    );
    let at_root = Visit::File {
        path: root(),
        shown: "/mail".to_string(),
        contents: Ok("(^A2=1)".to_string()),
    };
    assert_eq!(
        count_all(&root(), &vec![at_root]).unwrap_err(),
        CountError::Account { path: "/mail".to_string(), error: AccountError::NoComponent }
    );
    let mut up = root();
    up.push(Component::ParentDir);
    up.push(name("x.msf"));
    let parent = Visit::File { path: up, shown: "/mail/../x.msf".to_string(), contents: Ok(String::new()) };
    assert_eq!(
        count_all(&root(), &vec![parent]).unwrap_err(),
        CountError::Account {
            path: "/mail/../x.msf".to_string(),
            error: AccountError::Unsupported(Special::ParentDir),
        }
    );
    let mut raw = root();
    raw.push(Component::Opaque(vec![0xff]));
    raw.push(name("x.msf"));
    let opaque = Visit::File { path: raw, shown: "/mail/\u{fffd}/x.msf".to_string(), contents: Ok(String::new()) };
    assert_eq!(
        count_all(&root(), &vec![opaque]).unwrap_err(),
        CountError::Account { path: "/mail/\u{fffd}/x.msf".to_string(), error: AccountError::NotText }
    );
}

#[test]
fn account_is_looked_at_before_the_text() {
    let visit = Visit::File {
        path: vec![Component::RootDir, name("elsewhere"), name("x.msf")],
        shown: "/elsewhere/x.msf".to_string(),
        contents: Err("denied".to_string()),
    };
    assert_eq!(
        count_all(&root(), &vec![visit]).unwrap_err(),
        CountError::Account { path: "/elsewhere/x.msf".to_string(), error: AccountError::NotUnderRoot }
    );
}

#[test]
fn first_failure_in_the_walk_is_reported() {
    let visits = vec![
        unreadable(&["alice", "a.msf"], "first"),
        unreadable(&["bob", "b.msf"], "second"),
    ];
    assert_eq!(
        count_all(&root(), &visits).unwrap_err(),
        CountError::Unreadable { path: "/mail/alice/a.msf".to_string(), reason: "first".to_string() }
    );
}

#[test]
fn total_beyond_usize_is_an_error() {
    let max = format!("(^A2={:X})", usize::MAX);
    let visits = vec![
        file(&["alice", "a.msf"], &max),
        file(&["bob", "a.msf"], &max),
        file(&["alice", "b.msf"], "(^A2=0)"),
    ];
    assert_eq!(totals(&visits), vec![usize::MAX, usize::MAX]);
    let visits = vec![
        file(&["alice", "a.msf"], &max),
        file(&["bob", "a.msf"], "(^A2=1)"),
        file(&["alice", "b.msf"], "(^A2=1)"),
    ];
    assert_eq!(
        count_all(&root(), &visits).unwrap_err(),
        CountError::Overflow { account: "alice".to_string() }
    );
}

#[test]
fn snapshot_from_totals_keeps_them() {
    let count = tbunread::count::Count::from_totals(vec![0, 3, 12]);
    assert_eq!(count.totals(), &vec![0, 3, 12]);
    assert_eq!(count.display(), "0 3 12");
}

#[test]
fn index_files_are_found_by_their_suffix_at_any_depth() {
    assert_eq!(tbunread::count::INDEX_FILES, "*.msf");
    assert_eq!(tbunread::count::ANY_DEPTH, "**");
}
