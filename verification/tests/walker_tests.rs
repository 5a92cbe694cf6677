use ctrlstrip::fs_path::FsPath;
use ctrlstrip::report::path_display;
use ctrlstrip::report::rename_line;
use ctrlstrip::report::report_line;
use ctrlstrip::walker::Command;
use ctrlstrip::walker::Event;
use ctrlstrip::walker::WalkError;
use ctrlstrip::walker::Walker;

/// One entry of the simulated filesystem tree.
struct Entry {
    name: String,
    is_dir: bool,
    readonly: bool,
    children: Vec<Entry>,
}

fn file(name: &str) -> Entry {
    Entry { name: name.to_string(), is_dir: false, readonly: false, children: Vec::new() }
}

fn dir(name: &str, children: Vec<Entry>) -> Entry {
    Entry { name: name.to_string(), is_dir: true, readonly: false, children }
}

fn find<'a>(entries: &'a [Entry], path: &[String]) -> Option<&'a Entry> {
    let (first, rest) = path.split_first()?;
    for e in entries {
        if &e.name == first {
            if rest.is_empty() {
                return Some(e);
            }
            return find(&e.children, rest);
        }
    }
    None
}

fn find_children_mut<'a>(entries: &'a mut Vec<Entry>, path: &[String]) -> Option<&'a mut Vec<Entry>> {
    match path.split_first() {
        None => Some(entries),
        Some((first, rest)) => {
            for e in entries.iter_mut() {
                if &e.name == first {
                    return find_children_mut(&mut e.children, rest);
                }
            }
            None
        }
    }
}

/// Renames the entry at `from` to the final name of `to`. Fails when the
/// entry is missing or the target name is already taken.
fn apply_rename(tree: &mut Vec<Entry>, from: &[String], to: &[String]) -> bool {
    let parent = &from[..from.len() - 1];
    let old_name = &from[from.len() - 1];
    let new_name = &to[to.len() - 1];
    let Some(siblings) = find_children_mut(tree, parent) else {
        return false;
    };
    if siblings.iter().any(|e| &e.name == new_name) {
        return false;
    }
    for e in siblings.iter_mut() {
        if &e.name == old_name {
            e.name = new_name.clone();
            return true;
        }
    }
    false
}

fn path_of(components: &[&str]) -> FsPath {
    FsPath::new(components.iter().map(|s| s.to_string()).collect())
}

/// Drives a walk over the simulated tree, performing exactly what each
/// command asks, and returns the walk's result with the printed lines.
fn run_walk(tree: &mut Vec<Entry>, root: FsPath, dry_run: bool) -> (Result<(), WalkError>, Vec<String>) {
    let mut walker = Walker::new(root, dry_run);
    let mut lines: Vec<String> = Vec::new();
    let mut ev = Event::Proceed;
    loop {
        match walker.step(ev) {
            Err(e) => return (Err(e), lines),
            Ok(Command::Done) => return (Ok(()), lines),
            Ok(Command::Stat(p)) => {
                ev = match find(tree, &p.components) {
                    None => Event::Stat { exists: false, readonly: false, is_dir: false },
                    Some(e) => Event::Stat { exists: true, readonly: e.readonly, is_dir: e.is_dir },
                };
            }
            Ok(Command::List(p)) => {
                let Some(e) = find(tree, &p.components) else {
                    return (Err(WalkError::Io), lines);
                };
                let names: Vec<String> = e.children.iter().map(|c| c.name.clone()).collect();
                ev = Event::Children(names);
            }
            Ok(Command::Rename { from, to }) => {
                if !apply_rename(tree, &from.components, &to.components) {
                    return (Err(WalkError::Io), lines);
                }
                lines.push(rename_line(&from, &to));
                ev = Event::Proceed;
            }
            Ok(Command::Report { from, to }) => {
                lines.push(report_line(&from, &to));
                ev = Event::Proceed;
            }
        }
    }
}

fn names_of(entries: &[Entry]) -> Vec<String> {
    entries.iter().map(|e| e.name.clone()).collect()
}

#[test]
fn missing_path_is_rejected() {
    let mut tree = vec![file("present.txt")];
    let (res, lines) = run_walk(&mut tree, path_of(&["absent.txt"]), false);
    assert_eq!(res, Err(WalkError::NotFound));
    assert!(lines.is_empty());
}

#[test]
fn readonly_path_is_rejected_without_rename() {
    let mut tree = vec![Entry {
        name: "locked\u{1}.txt".to_string(),
        is_dir: false,
        readonly: true,
        children: Vec::new(),
    }];
    let (res, lines) = run_walk(&mut tree, path_of(&["locked\u{1}.txt"]), false);
    assert_eq!(res, Err(WalkError::Permission));
    assert!(lines.is_empty());
    assert_eq!(tree[0].name, "locked\u{1}.txt");
}

#[test]
fn single_file_is_renamed() {
    let mut tree = vec![file("x\u{1}.txt")];
    let (res, lines) = run_walk(&mut tree, path_of(&["x\u{1}.txt"]), false);
    assert_eq!(res, Ok(()));
    assert_eq!(tree[0].name, "x.txt");
    assert_eq!(lines, vec!["Renamed: x\u{1}.txt -> x.txt".to_string()]);
}

#[test]
fn clean_file_produces_no_output() {
    let mut tree = vec![file("fine.txt")];
    let (res, lines) = run_walk(&mut tree, path_of(&["fine.txt"]), false);
    assert_eq!(res, Ok(()));
    assert!(lines.is_empty());
    assert_eq!(tree[0].name, "fine.txt");
}

#[test]
fn dry_run_reports_but_does_not_mutate() {
    let mut tree = vec![dir(
        "root",
        vec![file("hello\u{7}world.txt"), dir("sub\u{1b}dir", vec![file("a.txt")])],
    )];
    let (res, lines) = run_walk(&mut tree, path_of(&["root"]), true);
    assert_eq!(res, Ok(()));
    assert_eq!(
        lines,
        vec![
            "Would rename: root/hello\u{7}world.txt -> root/helloworld.txt".to_string(),
            "Would rename: root/sub\u{1b}dir -> root/subdir".to_string(),
        ]
    );
    assert_eq!(names_of(&tree), vec!["root".to_string()]);
    assert_eq!(
        names_of(&tree[0].children),
        vec!["hello\u{7}world.txt".to_string(), "sub\u{1b}dir".to_string()]
    );
    assert_eq!(names_of(&tree[0].children[1].children), vec!["a.txt".to_string()]);
}

#[test]
fn directory_renamed_after_its_child() {
    let mut tree = vec![dir("bad\u{1}name", vec![file("child\u{2}.txt")])];
    let (res, lines) = run_walk(&mut tree, path_of(&["bad\u{1}name"]), false);
    assert_eq!(res, Ok(()));
    // The child's rename happens first and still uses the directory's
    // original name in its path; the directory follows.
    assert_eq!(
        lines,
        vec![
            "Renamed: bad\u{1}name/child\u{2}.txt -> bad\u{1}name/child.txt".to_string(),
            "Renamed: bad\u{1}name -> badname".to_string(),
        ]
    );
    assert_eq!(tree[0].name, "badname");
    assert_eq!(tree[0].children[0].name, "child.txt");
}

#[test]
fn end_to_end_example_tree() {
    let mut tree = vec![dir(
        "root",
        vec![file("hello\u{7}world.txt"), dir("sub\u{1b}dir", vec![file("a.txt")])],
    )];
    let (res, lines) = run_walk(&mut tree, path_of(&["root"]), false);
    assert_eq!(res, Ok(()));
    assert_eq!(lines.len(), 2);
    assert_eq!(lines[0], "Renamed: root/hello\u{7}world.txt -> root/helloworld.txt");
    assert_eq!(lines[1], "Renamed: root/sub\u{1b}dir -> root/subdir");
    assert_eq!(
        names_of(&tree[0].children),
        vec!["helloworld.txt".to_string(), "subdir".to_string()]
    );
    assert_eq!(names_of(&tree[0].children[1].children), vec!["a.txt".to_string()]);
}

#[test]
fn all_control_name_is_invalid() {
    let mut tree = vec![file("\u{1}\u{2}")];
    let (res, lines) = run_walk(&mut tree, path_of(&["\u{1}\u{2}"]), false);
    assert_eq!(res, Err(WalkError::InvalidName));
    assert!(lines.is_empty());
    assert_eq!(tree[0].name, "\u{1}\u{2}");
}

#[test]
fn colliding_rename_fails_with_io() {
    let mut tree = vec![dir("d", vec![file("a"), file("a\u{1}")])];
    let (res, _lines) = run_walk(&mut tree, path_of(&["d"]), false);
    assert_eq!(res, Err(WalkError::Io));
    // The collision left both entries in place.
    assert_eq!(names_of(&tree[0].children), vec!["a".to_string(), "a\u{1}".to_string()]);
}

#[test]
fn deep_nesting_renames_bottom_up() {
    let mut tree = vec![dir(
        "a\u{1}",
        vec![dir("b\u{2}", vec![dir("c\u{3}", vec![file("f\u{4}")])])],
    )];
    let (res, lines) = run_walk(&mut tree, path_of(&["a\u{1}"]), false);
    assert_eq!(res, Ok(()));
    assert_eq!(lines.len(), 4);
    assert_eq!(lines[0], "Renamed: a\u{1}/b\u{2}/c\u{3}/f\u{4} -> a\u{1}/b\u{2}/c\u{3}/f");
    assert_eq!(lines[1], "Renamed: a\u{1}/b\u{2}/c\u{3} -> a\u{1}/b\u{2}/c");
    assert_eq!(lines[2], "Renamed: a\u{1}/b\u{2} -> a\u{1}/b");
    assert_eq!(lines[3], "Renamed: a\u{1} -> a");
    assert_eq!(tree[0].name, "a");
    assert_eq!(tree[0].children[0].name, "b");
    assert_eq!(tree[0].children[0].children[0].name, "c");
    assert_eq!(tree[0].children[0].children[0].children[0].name, "f");
}

#[test]
fn path_display_joins_components() {
    let p = path_of(&["root", "sub", "a.txt"]);
    assert_eq!(path_display(&p).as_str(), "root/sub/a.txt");
    let single = path_of(&["only"]);
    assert_eq!(path_display(&single).as_str(), "only");
}

#[test]
fn report_lines_have_exact_format() {
    let from = path_of(&["root", "bad\u{1}"]);
    let to = path_of(&["root", "bad"]);
    assert_eq!(rename_line(&from, &to).as_str(), "Renamed: root/bad\u{1} -> root/bad");
    assert_eq!(report_line(&from, &to).as_str(), "Would rename: root/bad\u{1} -> root/bad");
}

#[test]
fn walker_reports_file_before_parent_even_when_listed_last() {
    // The directory's own rename waits for every listed child, whatever
    // the listing order.
    let mut tree = vec![dir("p\u{1}", vec![file("clean"), file("z\u{2}")])];
    let (res, lines) = run_walk(&mut tree, path_of(&["p\u{1}"]), false);
    assert_eq!(res, Ok(()));
    assert_eq!(
        lines,
        vec![
            "Renamed: p\u{1}/z\u{2} -> p\u{1}/z".to_string(),
            "Renamed: p\u{1} -> p".to_string(),
        ]
    );
}
