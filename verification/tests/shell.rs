//! The fake filesystem, the shell built-ins, history, completion, the
//! dispatcher, and the locomotive's bookkeeping.

use termcore::ascii::AsciiArt;
use termcore::autocomplete::{find_common_prefix, AutoComplete, CompletionResult};
use termcore::buffer::{LineBuffer, LineType};
use termcore::commands::{
    cat, cd, cowsay, echo, help, ln, lolcat, ls, mkdir, pwd, rm, sl, sudo, touch, tree, uname,
    Filesystem,
};
use termcore::fs::{autocomplete_entries, get_node, normalize_path, Node};
use termcore::history::CommandHistory;
use termcore::processor::{format_uptime, CommandHandler, CommandResult};
use termcore::vehicle::{move_print, Options, SmokeField};

fn file(content: &str) -> Node {
    Node::File {
        content: content.to_string(),
        permissions: 0o644,
        owner: "objz".to_string(),
        protected: false,
    }
}

fn dir(children: Vec<(String, Node)>) -> Node {
    Node::Directory { children, permissions: 0o755, owner: "objz".to_string(), protected: false }
}

fn sample_fs() -> Filesystem {
    // children listed sorted by name, as the tree invariant keeps them
    let objz = dir(vec![
        (".hidden".to_string(), file("shh")),
        ("a.txt".to_string(), file("hi")),
        ("proj".to_string(), dir(vec![])),
    ]);
    let home = dir(vec![("objz".to_string(), objz)]);
    let locked = Node::File {
        content: "top secret".to_string(),
        permissions: 0o600,
        owner: "root".to_string(),
        protected: true,
    };
    let root = dir(vec![
        ("home".to_string(), home),
        ("tmp".to_string(), dir(vec![])),
        ("vault".to_string(), locked),
    ]);
    Filesystem::new(root)
}

#[test]
fn normalize_path_resolves_dots_and_absolutes() {
    let cur = vec!["home".to_string(), "objz".to_string()];
    assert_eq!(normalize_path("/a/b/../c", &cur), vec!["a", "c"]);
    assert_eq!(normalize_path("x/./y", &cur), vec!["home", "objz", "x", "y"]);
    assert_eq!(normalize_path("..", &cur), vec!["home"]);
    assert_eq!(normalize_path("/", &cur), Vec::<String>::new());
}

#[test]
fn get_node_walks_the_tree() {
    let fs = sample_fs();
    let path = vec!["home".to_string(), "objz".to_string(), "a.txt".to_string()];
    match get_node(&fs.root, &path) {
        Some(Node::File { content, .. }) => assert_eq!(content, "hi"),
        _ => panic!("expected the file"),
    }
    assert!(get_node(&fs.root, &["nope".to_string()]).is_none());
}

#[test]
fn pwd_prints_the_working_directory() {
    let mut fs = sample_fs();
    assert_eq!(pwd(&fs), "/home/objz");
    cd(&mut fs, &[]);
    assert_eq!(pwd(&fs), "/home/objz");
    cd(&mut fs, &["/"]);
    assert_eq!(pwd(&fs), "/");
}

#[test]
fn cd_moves_rejects_and_follows_symlinks() {
    let mut fs = sample_fs();
    assert_eq!(cd(&mut fs, &["/tmp"]), "");
    assert_eq!(pwd(&fs), "/tmp");
    assert_eq!(cd(&mut fs, &["/vault"]), "cd: /vault: Not a directory");
    assert_eq!(cd(&mut fs, &["/missing"]), "cd: /missing: No such file or directory");
    assert_eq!(ln(&mut fs, &["-s", "/home/objz", "homelink"]), "");
    assert_eq!(cd(&mut fs, &["homelink"]), "");
    assert_eq!(pwd(&fs), "/home/objz");
}

#[test]
fn cat_prints_files_and_explains_the_rest() {
    let fs = sample_fs();
    let mut fs2 = sample_fs();
    assert_eq!(cat(&fs, &["a.txt"]), "hi");
    assert_eq!(cat(&fs, &["a.txt", ".hidden"]), "hi\nshh");
    assert_eq!(cat(&fs, &["a.txt", "a.txt"]), "hihi");
    assert_eq!(cat(&fs, &["proj"]), "cat: proj: Is a directory");
    assert_eq!(cat(&fs, &["nope"]), "cat: nope: No such file or directory");
    assert_eq!(cat(&fs, &[]), "cat: missing file operand");
    ln(&mut fs2, &["-s", "/tmp", "lnk"]);
    assert_eq!(cat(&fs2, &["lnk"]), "cat: lnk: Symbolic link (points to /tmp)");
}

#[test]
fn ls_lists_in_short_and_long_format() {
    let fs = sample_fs();
    assert_eq!(ls(&fs, &[]), "a.txt  proj/");
    assert_eq!(ls(&fs, &["-a"]), ".hidden  a.txt  proj/");
    assert_eq!(
        ls(&fs, &["-l"]),
        "-644 1 objz objz        2 Jan  1 12:00 a.txt\nd755 1 objz objz     4096 Jan  1 12:00 proj\n"
    );
    assert_eq!(ls(&fs, &["/missing"]), "ls: cannot access: No such file or directory");
    assert_eq!(ls(&fs, &["-z"]), "ls: invalid option -- 'z'");
    assert_eq!(ls(&fs, &["a.txt"]), "a.txt");
}

#[test]
fn mkdir_touch_and_their_errors() {
    let mut fs = sample_fs();
    assert_eq!(mkdir(&mut fs, &["newdir"]), "");
    assert_eq!(ls(&fs, &[]), "a.txt  newdir/  proj/");
    assert_eq!(mkdir(&mut fs, &["newdir"]), "mkdir: cannot create directory 'newdir': File exists");
    assert_eq!(
        mkdir(&mut fs, &["no/such/parent"]),
        "mkdir: cannot create directory 'no/such/parent': No such file or directory"
    );
    assert_eq!(mkdir(&mut fs, &[]), "mkdir: missing operand");
    assert_eq!(touch(&mut fs, &["note.txt"]), "");
    assert_eq!(cat(&fs, &["note.txt"]), "");
    assert_eq!(touch(&mut fs, &["note.txt"]), "");
    assert_eq!(touch(&mut fs, &[]), "touch: missing file operand");
    assert_eq!(
        mkdir(&mut fs, &["a.txt/sub"]),
        "mkdir: cannot create directory 'a.txt/sub': Not a directory"
    );
    assert_eq!(
        touch(&mut fs, &["a.txt/sub"]),
        "touch: cannot touch 'a.txt/sub': Not a directory"
    );
    assert_eq!(
        touch(&mut fs, &["no/file"]),
        "touch: cannot touch 'no/file': No such file or directory"
    );
}

#[test]
fn rm_respects_flags_protection_and_ownership() {
    let mut fs = sample_fs();
    assert_eq!(rm(&mut fs, &["a.txt"]), "");
    assert_eq!(cat(&fs, &["a.txt"]), "cat: a.txt: No such file or directory");
    assert_eq!(rm(&mut fs, &["proj"]), "rm: cannot remove 'proj': Is a directory");
    assert_eq!(rm(&mut fs, &["-r", "proj"]), "");
    assert_eq!(ls(&fs, &[]), "");
    assert_eq!(
        rm(&mut fs, &["/vault"]),
        "rm: cannot remove '/vault': Operation not permitted (protected system file)"
    );
    assert_eq!(rm(&mut fs, &["-x", "y"]), "rm: invalid option -- 'x'");
    assert_eq!(rm(&mut fs, &["ghost"]), "rm: cannot remove 'ghost': No such file or directory");
    assert_eq!(rm(&mut fs, &["-f", "ghost"]), "");
    assert_eq!(rm(&mut fs, &[]), "rm: missing operand");
    assert_eq!(rm(&mut fs, &["/"]), "rm: cannot remove '/': Permission denied");
}

#[test]
fn listings_come_out_sorted_whatever_the_creation_order() {
    let mut fs = sample_fs();
    assert_eq!(mkdir(&mut fs, &["zzz"]), "");
    assert_eq!(mkdir(&mut fs, &["aaa"]), "");
    assert_eq!(touch(&mut fs, &["mmm"]), "");
    assert_eq!(ls(&fs, &[]), "a.txt  aaa/  mmm  proj/  zzz/");
    let path = vec!["home".to_string(), "objz".to_string()];
    assert_eq!(
        autocomplete_entries(&fs.root, &path, true),
        vec!["aaa/", "proj/", "zzz/"]
    );
}

#[test]
fn ln_makes_symlinks_only() {
    let mut fs = sample_fs();
    assert_eq!(ln(&mut fs, &["a", "b"]), "ln: hard links not supported in this filesystem");
    assert_eq!(ln(&mut fs, &["-s"]), "ln: missing file operand");
    assert_eq!(ln(&mut fs, &[]), "ln: missing file operand");
    assert_eq!(ln(&mut fs, &["-s", "/tmp", "t"]), "");
    assert_eq!(ls(&fs, &[]), "a.txt  proj/  t@");
    assert_eq!(ln(&mut fs, &["-s", "/tmp", "t"]), "ln: cannot create link 't': File exists");
}

#[test]
fn tree_draws_the_branches() {
    let fs = sample_fs();
    assert_eq!(tree(&fs, &[]), "objz\n\u{251c}\u{2500}\u{2500} .hidden\n\u{251c}\u{2500}\u{2500} a.txt\n\u{2514}\u{2500}\u{2500} proj/\n");
    assert_eq!(tree(&fs, &["/missing"]), "tree: No such file or directory");
}

#[test]
fn text_commands_answer_exactly() {
    assert_eq!(uname(&[]), "WASM");
    assert_eq!(uname(&["-s"]), "WASM");
    assert!(uname(&["-a"]).starts_with("WASM wasm-host"));
    assert_eq!(uname(&["-q"]), "uname: invalid option");
    assert_eq!(sudo(&[]), "sudo: command required");
    assert_eq!(sudo(&["ls"]), "Sudo access denied.");
    assert_eq!(lolcat(&[]), "Usage: lolcat <text>");
    assert_eq!(lolcat(&["hi", "there"]), "\u{1f308} hi there \u{1f308}");
    assert_eq!(echo(&[]), "");
    assert_eq!(echo(&["$USER"]), "objz");
    assert_eq!(echo(&["a", "b"]), "a b");
    assert_eq!(AsciiArt::get_user(), "objz");
    assert!(help(&[]).contains("Available commands:"));
    assert!(sl(&[]).contains("You have new mail."));
}

#[test]
fn cowsay_sizes_its_bubble_to_the_message() {
    let out = cowsay(&["moo"]);
    assert!(out.starts_with(" -----\n< moo >\n -----\n"));
    assert!(out.contains("(oo)"));
    let stock = cowsay(&[]);
    assert!(stock.contains("< Hello from WASM! >"));
}

#[test]
fn panic_trigger_needs_sudo_rm_rf_on_root() {
    assert!(termcore::commands::should_panic("sudo rm -rf /", false));
    assert!(termcore::commands::should_panic("sudo rm -fr /", false));
    assert!(termcore::commands::should_panic("  sudo   rm   -rf   / ", false));
    assert!(!termcore::commands::should_panic("sudo rm -rf /tmp", false));
    assert!(!termcore::commands::should_panic("rm -rf /", false));
    assert!(!termcore::commands::should_panic("sudo rm /", false));
    assert!(termcore::commands::should_panic("sudo rm -rf ./", true));
    assert!(!termcore::commands::should_panic("sudo rm -rf ./", false));
    assert!(termcore::commands::should_panic("sudo rm -rf ./stuff", true));
}

#[test]
fn history_browses_backward_and_forward() {
    let mut h = CommandHistory::new();
    assert!(h.prev().is_none());
    h.add("ls".to_string());
    h.add("ls".to_string());  // immediate repeat dropped
    h.add("   ".to_string());  // blank dropped
    h.add("pwd".to_string());
    assert_eq!(h.prev().cloned().as_deref(), Some("pwd"));
    assert_eq!(h.prev().cloned().as_deref(), Some("ls"));
    assert_eq!(h.prev().cloned().as_deref(), Some("ls"));  // stays at the oldest
    assert_eq!(h.next().cloned().as_deref(), Some("pwd"));
    assert!(h.next().is_none());
    assert!(h.next().is_none());
}

#[test]
fn completion_offers_commands_and_paths() {
    let fs = sample_fs();
    let ac = AutoComplete::new();
    match ac.complete("he", &fs.current_path, &fs.root) {
        CompletionResult::Single(s) => assert_eq!(s, "help"),
        _ => panic!("expected a single match"),
    }
    match ac.complete("c", &fs.current_path, &fs.root) {
        CompletionResult::Multiple(v) => {
            assert_eq!(v, vec!["clear", "cd", "cat", "cowsay", "calc"]);
        },
        _ => panic!("expected several matches"),
    }
    match ac.complete("cd pr", &fs.current_path, &fs.root) {
        CompletionResult::Single(s) => assert_eq!(s, "proj/"),
        _ => panic!("expected the directory"),
    }
    assert!(matches!(
        ac.complete("zz", &fs.current_path, &fs.root),
        CompletionResult::NoMatch
    ));
    assert!(matches!(ac.complete("   ", &fs.current_path, &fs.root), CompletionResult::NoMatch));
}

#[test]
fn completion_entries_respect_the_dirs_only_filter() {
    let fs = sample_fs();
    let path = vec!["home".to_string(), "objz".to_string()];
    assert_eq!(
        autocomplete_entries(&fs.root, &path, false),
        vec![".hidden", "a.txt", "proj/"]
    );
    assert_eq!(autocomplete_entries(&fs.root, &path, true), vec!["proj/"]);
}

#[test]
fn completion_entries_sort_by_display_string() {
    // the directory suffix changes the order: "a!" sorts before "a/"
    let root = dir(vec![
        ("a".to_string(), dir(vec![])),
        ("a!".to_string(), file("x")),
    ]);
    assert_eq!(autocomplete_entries(&root, &[], false), vec!["a!", "a/"]);
    assert_eq!(autocomplete_entries(&root, &[], true), vec!["a/"]);
}

#[test]
fn common_prefix_of_completions() {
    let strs = vec!["proj".to_string(), "project".to_string()];
    assert_eq!(find_common_prefix(&strs).as_deref(), Some("proj"));
    let none = vec!["abc".to_string(), "xyz".to_string()];
    assert!(find_common_prefix(&none).is_none());
    assert!(find_common_prefix(&[]).is_none());
}

#[test]
fn dispatcher_routes_commands_and_records_history() {
    let mut fs = sample_fs();
    let mut h = CommandHandler::new();
    match h.handle("clear", &mut fs) {
        (CommandResult::Output(s), false) => assert_eq!(s, "CLEAR_SCREEN"),
        _ => panic!("expected the clear sentinel"),
    }
    match h.handle("  pwd  ", &mut fs) {
        (CommandResult::Output(s), false) => assert_eq!(s, "/home/objz"),
        _ => panic!("expected output"),
    }
    match h.handle("cd /tmp", &mut fs) {
        (CommandResult::Output(s), changed) => {
            assert_eq!(s, "");
            assert!(changed);
        },
        _ => panic!("expected output"),
    }
    assert_eq!(h.get_working_dir(&fs), "/tmp");
    match h.handle("nope", &mut fs) {
        (CommandResult::Output(s), false) => assert_eq!(s, "zsh: command not found: nope"),
        _ => panic!("expected the unknown-command message"),
    }
    match h.handle("sl -l", &mut fs) {
        (CommandResult::Animated(args), false) => assert_eq!(args, vec!["-l"]),
        _ => panic!("expected the animation request"),
    }
    match h.handle("calc 2 + 2", &mut fs) {
        (CommandResult::Calc(args), false) => assert_eq!(args, vec!["2", "+", "2"]),
        _ => panic!("expected the calc deferral"),
    }
    match h.handle("calc", &mut fs) {
        (CommandResult::Output(s), false) => assert!(s.starts_with("Usage: calc")),
        _ => panic!("expected the calc usage text"),
    }
    assert!(matches!(h.handle("date", &mut fs).0, CommandResult::Date));
    assert!(matches!(h.handle("uptime", &mut fs).0, CommandResult::Uptime));
    match h.handle("", &mut fs) {
        (CommandResult::Output(s), false) => assert_eq!(s, ""),
        _ => panic!("expected empty output"),
    }
    let listing = h.print_history(&[]);
    assert!(listing.starts_with("  1  clear\n  2  pwd\n"));
    assert!(listing.contains("  9  uptime"));
}

#[test]
fn prompt_shows_home_as_a_tilde() {
    assert_eq!(termcore::processor::get_current_prompt("objz@portfolio", "/home/objz"), "objz@portfolio:~$ ");
    assert_eq!(
        termcore::processor::get_current_prompt("objz@portfolio", "/home/objz/projects"),
        "objz@portfolio:~/projects$ "
    );
    assert_eq!(
        termcore::processor::get_current_prompt("objz@portfolio", "/tmp"),
        "objz@portfolio:/tmp$ "
    );
}

#[test]
fn uptime_formats_elapsed_milliseconds() {
    assert_eq!(format_uptime(3_723_000), "01h 02m 03s");
    assert_eq!(format_uptime(0), "00h 00m 00s");
    assert_eq!(format_uptime(59_999), "00h 00m 59s");
}

#[test]
fn vehicle_options_and_clipped_printing() {
    let o = Options::parse(&["-a", "-f", "-?"]);
    assert!(o.accident && o.fly && !o.logo && !o.c51);

    let mut b = LineBuffer::new();
    move_print(&mut b, -2, 5, "abcd");
    let lines = b.get_visible_lines(100);
    assert_eq!(lines.len(), 1);
    assert_eq!(lines[0].content, "cd");
    assert!(matches!(lines[0].line_type, LineType::Output));

    move_print(&mut b, 0, -1, "below");
    move_print(&mut b, 900, 5, "right");
    assert_eq!(b.get_visible_lines(100).len(), 1);
}

#[test]
fn smoke_ring_advances_only_on_emitting_columns() {
    let mut b = LineBuffer::new();
    let mut s = SmokeField::new();
    s.advance(&mut b, 3, 10);
    assert_eq!(s.smokes.len(), 0);
    s.advance(&mut b, 4, 10);
    assert_eq!(s.smokes.len(), 1);
    assert_eq!(s.smokes[0].x, 4);
    assert_eq!(s.smokes[0].ptrn, 0);
    assert_eq!(s.smokes[0].kind, 0);
    s.advance(&mut b, 0, 10);
    assert_eq!(s.smokes.len(), 2);
    assert_eq!(s.smokes[0].ptrn, 1);
    assert_eq!(s.smokes[0].x, 4 + (-2));
    assert_eq!(s.smokes[0].y, 10 - 2);
    assert_eq!(s.smokes[1].kind, 1);
}
