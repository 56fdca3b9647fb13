use five::components::file_pane::{DirectoryTreeComponent, FilePaneComponent, QuickOpenComponent};
use five::event::{Event, KeyInput};
use five::indexer::index::{FileIndexEntry, FileTreeFolder, FileTreeNode, Index, IndexError};
use five::indexer::ssh_index::{get_file_tree_node, parse_find_line, FindOutput, SshConfig};
use five::quick_open::get_quick_open_results;

fn entry(path: &str) -> FileIndexEntry {
    FileIndexEntry::new(path).unwrap()
}

#[test]
fn index_error_message() {
    let e = IndexError::new("broken");
    assert_eq!(e.message, "broken");
    let e = five::indexer::IndexError::new("also broken");
    assert_eq!(e.message, "also broken");
}

#[test]
fn file_index_entry_normalizes_name() {
    let e = entry("./docs/README.TXT");
    assert_eq!(e.path, "./docs/README.TXT");
    assert_eq!(e.file_name, "README.TXT");
    assert_eq!(e.normalized_filename, "readme.txt");
}

#[test]
fn file_index_entry_without_name() {
    assert!(FileIndexEntry::new("./docs/").is_none());
    assert!(FileIndexEntry::new("").is_none());
}

#[test]
fn index_collects_files_depth_first() {
    let tree = FileTreeNode::Folder(FileTreeFolder {
        children: vec![
            FileTreeNode::File(entry("./a.txt")),
            FileTreeNode::Folder(FileTreeFolder {
                children: vec![FileTreeNode::File(entry("./sub/b.txt"))],
                folder_name: String::from("sub"),
            }),
            FileTreeNode::File(entry("./c.txt")),
        ],
        folder_name: String::from("root"),
    });
    let index = Index::new(tree);
    let names: Vec<&str> = index.files.iter().map(|f| f.file_name.as_str()).collect();
    assert_eq!(names, vec!["a.txt", "b.txt", "c.txt"]);
}

#[test]
fn parse_find_line_file() {
    let line = "   658744      4 -rw-r--r--   1 root     root          148 Aug 17  2015 ./.profile";
    match parse_find_line(line) {
        Some(FindOutput::File(p)) => assert_eq!(p, "./.profile"),
        _ => panic!("expected a file"),
    }
}

#[test]
fn parse_find_line_folder() {
    let line = "1 4 drwxr-xr-x 2 root root 4096 Aug 17 2015 ./etc";
    match parse_find_line(line) {
        Some(FindOutput::Folder(p)) => assert_eq!(p, "./etc"),
        _ => panic!("expected a folder"),
    }
}

#[test]
fn parse_find_line_too_short() {
    assert!(parse_find_line("1 2 -rw-").is_none());
    assert!(parse_find_line("").is_none());
}

#[test]
fn parse_find_line_unknown_kind() {
    assert!(parse_find_line("1 2 lrwxrwxrwx 3 ./link").is_none());
}

#[test]
fn tree_from_find_output() {
    let output = vec![
        FindOutput::Folder(String::from("./a")),
        FindOutput::File(String::from("./a/f.txt")),
        FindOutput::Folder(String::from("./a/b")),
        FindOutput::File(String::from("./a/b/g.txt")),
        FindOutput::Folder(String::from("./c")),
    ];
    let (rest, node) = get_file_tree_node(&output).unwrap();
    assert_eq!(rest.len(), 1);
    match node {
        FileTreeNode::Folder(folder) => {
            assert_eq!(folder.folder_name, "a");
            assert_eq!(folder.children.len(), 2);
            match &folder.children[0] {
                FileTreeNode::File(e) => assert_eq!(e.file_name, "f.txt"),
                _ => panic!("expected a file first"),
            }
            match &folder.children[1] {
                FileTreeNode::Folder(sub) => {
                    assert_eq!(sub.folder_name, "b");
                    assert_eq!(sub.children.len(), 1);
                },
                _ => panic!("expected a folder second"),
            }
        },
        _ => panic!("expected a folder"),
    }
}

#[test]
fn tree_from_empty_find_output() {
    let output: Vec<FindOutput> = Vec::new();
    assert!(get_file_tree_node(&output).is_err());
}

#[test]
fn quick_open_matches_case_insensitively() {
    let tree = FileTreeNode::Folder(FileTreeFolder {
        children: vec![
            FileTreeNode::File(entry("./Main.rs")),
            FileTreeNode::File(entry("./makefile")),
            FileTreeNode::File(entry("./notes.txt")),
        ],
        folder_name: String::from("root"),
    });
    let index = Index::new(tree);
    let results = get_quick_open_results(&index, "MA");
    let names: Vec<&str> = results.iter().map(|f| f.file_name.as_str()).collect();
    assert_eq!(names, vec!["Main.rs", "makefile"]);
}

#[test]
fn quick_open_empty_query_matches_nothing() {
    let tree = FileTreeNode::File(entry("./a.txt"));
    let index = Index::new(tree);
    assert_eq!(get_quick_open_results(&index, "").len(), 0);
}

#[test]
fn quick_open_pane_searches_as_typed() {
    let mut pane = QuickOpenComponent::new();
    assert!(pane.dispatch_key(KeyInput::Char('m')));
    assert_eq!(pane.results().len(), 0);
    assert_eq!(pane.events().len(), 0);

    let tree = FileTreeNode::Folder(FileTreeFolder {
        children: vec![
            FileTreeNode::File(entry("./Main.rs")),
            FileTreeNode::File(entry("./makefile")),
            FileTreeNode::File(entry("./notes.txt")),
        ],
        folder_name: String::from("root"),
    });
    pane.set_index(Index::new(tree));
    let names: Vec<&str> = pane.results().iter().map(|f| f.file_name.as_str()).collect();
    assert_eq!(names, vec!["Main.rs", "makefile"]);

    assert!(pane.dispatch_key(KeyInput::Down));
    assert_eq!(pane.events().len(), 1);
    match &pane.events()[0] {
        Event::FileItemSelected(FileTreeNode::File(e)) => assert_eq!(e.file_name, "makefile"),
        _ => panic!("expected the second result to be selected"),
    }

    assert!(pane.dispatch_key(KeyInput::Up));
    match &pane.events()[0] {
        Event::FileItemSelected(FileTreeNode::File(e)) => assert_eq!(e.file_name, "Main.rs"),
        _ => panic!("expected the first result to be selected"),
    }

    assert!(pane.dispatch_key(KeyInput::Backspace));
    assert_eq!(pane.results().len(), 0);
    assert_eq!(pane.events().len(), 0);
    assert!(!pane.dispatch_key(KeyInput::Esc));
}

#[test]
fn directory_tree_walks_and_opens() {
    let tree = FileTreeNode::Folder(FileTreeFolder {
        children: vec![
            FileTreeNode::Folder(FileTreeFolder {
                children: vec![FileTreeNode::File(entry("./sub/inner.txt"))],
                folder_name: String::from("sub"),
            }),
            FileTreeNode::File(entry("./top.txt")),
        ],
        folder_name: String::from("root"),
    });
    let mut pane = DirectoryTreeComponent::new();
    assert!(!pane.dispatch_key(KeyInput::Backspace));
    pane.update_index(Index::new(tree));
    assert_eq!(pane.num_current_items(), 2);

    // select the file at the top level: it is reported as selected
    assert!(pane.dispatch_key(KeyInput::Down));
    assert_eq!(pane.events().len(), 0);
    assert!(pane.dispatch_key(KeyInput::Down));
    match &pane.events()[0] {
        Event::FileItemSelected(FileTreeNode::File(e)) => assert_eq!(e.file_name, "top.txt"),
        _ => panic!("expected the file to be selected"),
    }

    // open the file: it is reported as opened and stays selected
    assert!(pane.dispatch_key(KeyInput::Char('\n')));
    assert_eq!(pane.events().len(), 2);
    assert!(matches!(
        &pane.events()[0],
        Event::FileItemOpened(e) if e.file_name == "top.txt"
    ));

    // move back up and descend into the folder
    assert!(pane.dispatch_key(KeyInput::Up));
    assert!(pane.dispatch_key(KeyInput::Char('\n')));
    assert_eq!(pane.num_current_items(), 1);
    assert!(pane.dispatch_key(KeyInput::Down));
    match &pane.events()[0] {
        Event::FileItemSelected(FileTreeNode::File(e)) => {
            assert_eq!(e.file_name, "inner.txt")
        },
        _ => panic!("expected the inner file to be selected"),
    }

    // back out to the top level
    assert!(pane.dispatch_key(KeyInput::Backspace));
    assert_eq!(pane.num_current_items(), 2);
}

fn small_tree() -> FileTreeNode {
    FileTreeNode::Folder(FileTreeFolder {
        children: vec![
            FileTreeNode::File(entry("./top.txt")),
            FileTreeNode::File(entry("./other.rs")),
        ],
        folder_name: String::from("root"),
    })
}

#[test]
fn file_pane_switches_between_faces() {
    let mut pane = FilePaneComponent::new();
    pane.update_index(Index::new(small_tree()));

    // the directory tree receives the keys first
    assert!(pane.dispatch_key(KeyInput::Down));
    match &pane.events()[0] {
        Event::FileItemSelected(FileTreeNode::File(e)) => assert_eq!(e.file_name, "top.txt"),
        _ => panic!("expected the first file to be selected"),
    }

    // quick open takes over, searches, and escape hands back
    pane.start_quick_open(Index::new(small_tree()));
    assert!(pane.dispatch_key(KeyInput::Char('o')));
    match &pane.events()[0] {
        Event::FileItemSelected(FileTreeNode::File(e)) => assert_eq!(e.file_name, "other.rs"),
        _ => panic!("expected the quick-open hit to be selected"),
    }
    assert!(pane.dispatch_key(KeyInput::Esc));
    assert!(!pane.dispatch_key(KeyInput::Esc));
}

#[test]
fn ssh_config_splits_path() {
    let config = SshConfig::new(vec![
        String::from("user@host:/home/me"),
        String::from("-p"),
        String::from("22"),
    ]);
    let args = config.ssh_args();
    assert_eq!(args.len(), 3);
    assert_eq!(args[0], "user@host");
    assert_eq!(args[1], "-p");
    assert_eq!(args[2], "22");
    assert_eq!(config.directory_path(), "/home/me");
}

#[test]
fn ssh_config_without_path() {
    let config = SshConfig::new(vec![String::from("host")]);
    assert_eq!(config.ssh_args()[0], "host");
    assert_eq!(config.directory_path(), "/");
}

#[test]
fn ssh_config_ignores_second_colon() {
    let config = SshConfig::new(vec![String::from("host:/a:/b")]);
    assert_eq!(config.ssh_args()[0], "host");
    assert_eq!(config.directory_path(), "/a");
}
