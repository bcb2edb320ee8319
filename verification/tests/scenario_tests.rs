use homer::actions::Action;
use homer::model::{DestProbe, Node, NodeKind};
use homer::plan::Plan;
use homer::render::Line;
use homer::run_linking;

fn p(s: &str) -> Vec<u8> {
    s.as_bytes().to_vec()
}

fn probe_missing() -> DestProbe {
    DestProbe { occupied: false, is_dir: false, link_target: None }
}

fn probe_dir() -> DestProbe {
    DestProbe { occupied: true, is_dir: true, link_target: None }
}

fn probe_file() -> DestProbe {
    DestProbe { occupied: true, is_dir: false, link_target: None }
}

fn probe_link(resolved: &str) -> DestProbe {
    DestProbe { occupied: true, is_dir: false, link_target: Some(p(resolved)) }
}

fn file_node(path: &str, dest: &str, probe: DestProbe, canonical: &str) -> Node {
    Node {
        path: p(path),
        dest: p(dest),
        probe,
        kind: NodeKind::File { canonical: Some(p(canonical)) },
    }
}

fn dir_node(path: &str, dest: &str, probe: DestProbe, entries: Vec<Node>) -> Node {
    Node { path: p(path), dest: p(dest), probe, kind: NodeKind::Dir { entries: Some(entries) } }
}

#[test]
fn fresh() {
    let root = dir_node(
        "/src",
        "/home/user",
        probe_dir(),
        vec![file_node("/src/file", "/home/user/file", probe_missing(), "/src/file")],
    );
    let plan = Plan::new(&root, false).unwrap();
    assert_eq!(
        plan,
        Plan::Noop {
            path: p("/src"),
            dest: p("/home/user"),
            children: vec![Plan::Link {
                path: p("/src/file"),
                dest: p("/home/user/file"),
                replace: false,
                backup: false,
                dest_is_dir: false,
            }],
        }
    );
    assert_eq!(
        plan.actions(),
        vec![Action::Symlink { source: p("/src/file"), dest: p("/home/user/file") }]
    );
}

#[test]
fn already_linked() {
    let root = dir_node(
        "/src",
        "/home/user",
        probe_dir(),
        vec![file_node("/src/linked", "/home/user/linked", probe_link("/src/linked"), "/src/linked")],
    );
    let plan = Plan::new(&root, false).unwrap();
    assert_eq!(
        plan,
        Plan::Noop {
            path: p("/src"),
            dest: p("/home/user"),
            children: vec![Plan::Noop {
                path: p("/src/linked"),
                dest: p("/home/user/linked"),
                children: vec![],
            }],
        }
    );
    assert!(plan.is_empty());
}

#[test]
fn blocked_file() {
    let root = dir_node(
        "/src",
        "/home/user",
        probe_dir(),
        vec![file_node("/src/rc", "/home/user/rc", probe_file(), "/src/rc")],
    );
    let plan = Plan::new(&root, true).unwrap();
    assert_eq!(
        plan,
        Plan::Noop {
            path: p("/src"),
            dest: p("/home/user"),
            children: vec![Plan::Link {
                path: p("/src/rc"),
                dest: p("/home/user/rc"),
                replace: true,
                backup: true,
                dest_is_dir: false,
            }],
        }
    );
    assert_eq!(
        plan.actions(),
        vec![
            Action::Rename { from: p("/home/user/rc"), to: p("/home/user/rc.bkp") },
            Action::Symlink { source: p("/src/rc"), dest: p("/home/user/rc") },
        ]
    );
}

#[test]
fn not_a_directory() {
    let root = dir_node(
        "/src/dir",
        "/home/user/dir",
        probe_file(),
        vec![file_node("/src/dir/inner", "/home/user/dir/inner", probe_missing(), "/src/dir/inner")],
    );
    let plan = Plan::new(&root, false).unwrap();
    assert_eq!(
        plan,
        Plan::Link {
            path: p("/src/dir"),
            dest: p("/home/user/dir"),
            replace: true,
            backup: false,
            dest_is_dir: false,
        }
    );
    // The whole directory is one unit: the occupant goes, one link appears,
    // and no action for the inner entry is scheduled.
    assert_eq!(
        plan.actions(),
        vec![
            Action::RemoveFile { path: p("/home/user/dir") },
            Action::Symlink { source: p("/src/dir"), dest: p("/home/user/dir") },
        ]
    );
}

#[test]
fn idempotent_after_execution() {
    // First run: the file needs a link.
    let before = dir_node(
        "/src",
        "/home/user",
        probe_dir(),
        vec![file_node("/src/rc", "/home/user/rc", probe_file(), "/src/rc")],
    );
    let first = Plan::new(&before, true).unwrap();
    assert!(!first.is_empty());

    // After carrying it out, the destination holds a symlink resolving to
    // the source; a second build finds nothing to do.
    let after = dir_node(
        "/src",
        "/home/user",
        probe_dir(),
        vec![file_node("/src/rc", "/home/user/rc", probe_link("/src/rc"), "/src/rc")],
    );
    let second = Plan::new(&after, true).unwrap();
    assert!(second.is_empty());
}

#[test]
fn backup_keeps_occupant_out_of_removals() {
    let root = dir_node(
        "/src",
        "/home/user",
        probe_dir(),
        vec![
            file_node("/src/a", "/home/user/a", probe_file(), "/src/a"),
            dir_node("/src/d", "/home/user/d", probe_file(), vec![]),
        ],
    );
    let actions = Plan::new(&root, true).unwrap().actions();
    assert!(actions.iter().all(|a| !matches!(a, Action::RemoveFile { .. })
        && !matches!(a, Action::RemoveDir { .. })));
    assert!(actions.contains(&Action::Rename {
        from: p("/home/user/a"),
        to: p("/home/user/a.bkp")
    }));
    assert!(actions.contains(&Action::Rename {
        from: p("/home/user/d"),
        to: p("/home/user/d.bkp")
    }));
}

#[test]
fn no_backup_removes_occupants() {
    let dir_occupant = DestProbe { occupied: true, is_dir: true, link_target: None };
    let root = dir_node(
        "/src",
        "/home/user",
        probe_dir(),
        vec![
            file_node("/src/a", "/home/user/a", probe_file(), "/src/a"),
            file_node("/src/d", "/home/user/d", dir_occupant, "/src/d"),
        ],
    );
    let actions = Plan::new(&root, false).unwrap().actions();
    assert!(actions.iter().all(|a| !matches!(a, Action::Rename { .. })));
    assert_eq!(
        actions,
        vec![
            Action::RemoveFile { path: p("/home/user/a") },
            Action::Symlink { source: p("/src/a"), dest: p("/home/user/a") },
            Action::RemoveDir { path: p("/home/user/d") },
            Action::Symlink { source: p("/src/d"), dest: p("/home/user/d") },
        ]
    );
}

#[test]
fn directory_short_circuit_keeps_children_planned() {
    let root = dir_node(
        "/src",
        "/home/user",
        probe_dir(),
        vec![dir_node(
            "/src/sub",
            "/home/user/sub",
            probe_dir(),
            vec![file_node("/src/sub/f", "/home/user/sub/f", probe_missing(), "/src/sub/f")],
        )],
    );
    let plan = Plan::new(&root, false).unwrap();
    // Both directories are in place, so both are Noop; the file below them
    // is still planned on its own.
    assert_eq!(
        plan,
        Plan::Noop {
            path: p("/src"),
            dest: p("/home/user"),
            children: vec![Plan::Noop {
                path: p("/src/sub"),
                dest: p("/home/user/sub"),
                children: vec![Plan::Link {
                    path: p("/src/sub/f"),
                    dest: p("/home/user/sub/f"),
                    replace: false,
                    backup: false,
                    dest_is_dir: false,
                }],
            }],
        }
    );
    assert!(!plan.is_empty());
}

#[test]
fn relative_symlink_resolution_decides() {
    // A pre-existing symlink resolving to the source: done.
    let same = file_node("/src/rc", "/home/user/rc", probe_link("/src/rc"), "/src/rc");
    assert_eq!(
        Plan::new(&same, false).unwrap(),
        Plan::Noop { path: p("/src/rc"), dest: p("/home/user/rc"), children: vec![] }
    );

    // One resolving anywhere else: an occupant that must be replaced.
    let other = file_node("/src/rc", "/home/user/rc", probe_link("/elsewhere/rc"), "/src/rc");
    assert_eq!(
        Plan::new(&other, false).unwrap(),
        Plan::Link {
            path: p("/src/rc"),
            dest: p("/home/user/rc"),
            replace: true,
            backup: false,
            dest_is_dir: false,
        }
    );
}

#[test]
fn render_previews_each_kind_of_work() {
    let dir_occupant = DestProbe { occupied: true, is_dir: true, link_target: None };
    let backed_up = dir_node(
        "/src",
        "/home/user",
        probe_dir(),
        vec![file_node("/src/a", "/home/user/a", probe_file(), "/src/a")],
    );
    assert_eq!(
        Plan::new(&backed_up, true).unwrap().render(),
        vec![
            Line::Backup { from: p("/home/user/a"), to: p("/home/user/a.bkp") },
            Line::Link { source: p("/src/a"), dest: p("/home/user/a") },
        ]
    );

    let removed = dir_node(
        "/src",
        "/home/user",
        probe_dir(),
        vec![file_node("/src/a", "/home/user/a", dir_occupant, "/src/a")],
    );
    assert_eq!(
        Plan::new(&removed, false).unwrap().render(),
        vec![
            Line::Remove { path: p("/home/user/a"), is_dir: true },
            Line::Link { source: p("/src/a"), dest: p("/home/user/a") },
        ]
    );

    let fresh = dir_node(
        "/src",
        "/home/user",
        probe_dir(),
        vec![file_node("/src/a", "/home/user/a", probe_missing(), "/src/a")],
    );
    assert_eq!(
        Plan::new(&fresh, false).unwrap().render(),
        vec![Line::Link { source: p("/src/a"), dest: p("/home/user/a") }]
    );
}

#[test]
fn run_linking_empty_plan_is_silent() {
    let root = dir_node(
        "/src",
        "/home/user",
        probe_dir(),
        vec![file_node("/src/rc", "/home/user/rc", probe_link("/src/rc"), "/src/rc")],
    );
    let outcome = run_linking(&root, true, false).unwrap();
    assert!(outcome.lines.is_empty());
    assert!(!outcome.needs_prompt);
    assert!(outcome.actions.is_empty());
}

#[test]
fn run_linking_prompts_unless_forced() {
    let root = dir_node(
        "/src",
        "/home/user",
        probe_dir(),
        vec![file_node("/src/rc", "/home/user/rc", probe_missing(), "/src/rc")],
    );
    let outcome = run_linking(&root, true, false).unwrap();
    assert!(outcome.needs_prompt);
    assert_eq!(
        outcome.lines,
        vec![Line::Link { source: p("/src/rc"), dest: p("/home/user/rc") }]
    );
    assert_eq!(
        outcome.actions,
        vec![Action::Symlink { source: p("/src/rc"), dest: p("/home/user/rc") }]
    );

    let forced = run_linking(&root, true, true).unwrap();
    assert!(!forced.needs_prompt);
    assert_eq!(forced.actions, outcome.actions);
}

#[test]
fn run_linking_surfaces_build_errors() {
    let root = Node {
        path: p("/src"),
        dest: p("/home/user"),
        probe: probe_missing(),
        kind: NodeKind::Missing,
    };
    let r = run_linking(&root, true, false);
    assert!(r.is_err());
}

#[test]
fn empty_source_directory_is_nothing_to_do() {
    let root = dir_node("/src", "/home/user", probe_dir(), vec![]);
    let plan = Plan::new(&root, true).unwrap();
    assert!(plan.is_empty());
    assert!(plan.actions().is_empty());
    assert!(plan.render().is_empty());
}

#[test]
fn blocked_dotfile_backs_up_under_its_whole_name() {
    let root = dir_node(
        "/src",
        "/home/user",
        probe_dir(),
        vec![file_node("/src/.vimrc", "/home/user/.vimrc", probe_file(), "/src/.vimrc")],
    );
    let actions = Plan::new(&root, true).unwrap().actions();
    assert_eq!(
        actions,
        vec![
            Action::Rename { from: p("/home/user/.vimrc"), to: p("/home/user/.vimrc.bkp") },
            Action::Symlink { source: p("/src/.vimrc"), dest: p("/home/user/.vimrc") },
        ]
    );
}
