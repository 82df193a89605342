//! The shell built-ins that operate on the in-memory filesystem and the
//! pure text commands, each a total function from session state and
//! arguments to its output.

use vstd::prelude::*;
use crate::fs::{
    fs_entry, get_node, insert_child, lookup, node_owner, node_protected, node_wf,
    normalize_model, normalize_path, remove_child, FsOp, Node,
};
use crate::strutil::{
    cat2, cat3, chars_of, contains_str, contains_sub, join_sep, join_strs, pad_left,
    pad_left_str, repeat_char, repeat_char_str, split_ws, split_ws_vec, starts_with,
    starts_with_spec, str_eq, trim_end, trim_end_spec, u16_to_oct, u64_to_dec, views, views_s,
    oct_str, dec_str,
};

verus! {

/// One terminal session's filesystem state: the tree, the working
/// directory, and who is logged in.
pub struct Filesystem {
    pub root: Node,
    pub current_path: Vec<String>,
    pub current_user: String,
}

impl Filesystem {
    pub open spec fn wf(&self) -> bool {
        node_wf(self.root)
    }

    /// A session over the given tree, starting in the user's home.
    pub fn new(root: Node) -> (r: Self)
        requires
            node_wf(root),
        ensures
            r.wf(),
            r.root == root,
            views(r.current_path@) == seq!["home"@, "objz"@],
            r.current_user@ == "objz"@,
    {
        let mut current_path: Vec<String> = Vec::new();
        current_path.push("home".to_owned());
        current_path.push("objz".to_owned());
        proof {
            assert(views(current_path@) =~= seq!["home"@, "objz"@]);
        }
        Self { root, current_path, current_user: "objz".to_owned() }
    }
}

/// The rendering of a working directory as `pwd` prints it.
pub open spec fn pwd_spec(parts: Seq<Seq<char>>) -> Seq<char> {
    if parts.len() == 0 {
        "/"@
    } else {
        "/"@ + join_sep(parts, "/"@)
    }
}

/// Joins owned strings with a separator.
pub fn join_strings(parts: &Vec<String>, sep: &str) -> (r: String)
    ensures
        r@ == join_sep(views(parts@), sep@),
{
    let mut refs: Vec<&str> = Vec::new();
    let mut i: usize = 0;
    while i < parts.len()
        invariant
            i <= parts@.len(),
            refs@.len() == i,
            forall|k: int| 0 <= k < i ==> (#[trigger] refs@[k])@ == parts@[k]@,
        decreases parts@.len() - i,
    {
        refs.push(parts[i].as_str());
        i = i + 1;
    }
    proof {
        assert(views_s(refs@) =~= views(parts@));
    }
    join_strs(refs.as_slice(), sep)
}

/// Prints the working directory.
pub fn pwd(fs: &Filesystem) -> (r: String)
    ensures
        r@ == pwd_spec(views(fs.current_path@)),
{
    if fs.current_path.len() == 0 {
        "/".to_owned()
    } else {
        cat2("/", join_strings(&fs.current_path, "/").as_str())
    }
}

/// What `cd` does to the working directory: the new path when the target
/// resolves (through one symlink if need be), or the error printed.
pub open spec fn cd_target(root: Node, cur: Seq<Seq<char>>, arg: Seq<char>) -> Option<
    Seq<Seq<char>>,
> {
    let np = normalize_model(arg, cur);
    match lookup(root, np) {
        Option::Some(n) => match n {
            Node::Directory { .. } => Option::Some(np),
            Node::Symlink { target, .. } => {
                let sp = normalize_model(target@, cur);
                match lookup(root, sp) {
                    Option::Some(m) => if m is Directory {
                        Option::Some(sp)
                    } else {
                        Option::None
                    },
                    Option::None => Option::None,
                }
            },
            _ => Option::None,
        },
        Option::None => Option::None,
    }
}

/// Whether a failed `cd` found something that is just not a directory —
/// a file at the target, or a symlink whose own target resolves to a
/// non-directory.  A missing target, or a symlink pointing at nothing, is
/// the no-such-file case instead.
pub open spec fn cd_found_non_directory(root: Node, cur: Seq<Seq<char>>, arg: Seq<char>) -> bool {
    match lookup(root, normalize_model(arg, cur)) {
        Option::Some(n) => match n {
            Node::Symlink { target, .. } => match lookup(root, normalize_model(target@, cur)) {
                Option::Some(m) => !(m is Directory),
                Option::None => false,
            },
            Node::Directory { .. } => false,
            _ => true,
        },
        Option::None => false,
    }
}

/// What `cd` does: the new working directory and the text printed, with
/// the failure message picked by what the lookup found.
pub open spec fn cd_post(
    root: Node,
    old_cur: Seq<Seq<char>>,
    new_cur: Seq<Seq<char>>,
    argvs: Seq<Seq<char>>,
    out: Seq<char>,
) -> bool {
    if argvs.len() == 0 {
        new_cur == seq!["home"@, "objz"@] && out == Seq::<char>::empty()
    } else {
        match cd_target(root, old_cur, argvs[0]) {
            Option::Some(np) => new_cur == np && out == Seq::<char>::empty(),
            Option::None => new_cur == old_cur && out == (if cd_found_non_directory(
                root,
                old_cur,
                argvs[0],
            ) {
                "cd: "@ + argvs[0] + ": Not a directory"@
            } else {
                "cd: "@ + argvs[0] + ": No such file or directory"@
            }),
        }
    }
}

/// Changes the working directory; with no argument it returns home.  The
/// tree itself is never touched.
pub fn cd(fs: &mut Filesystem, args: &[&str]) -> (r: String)
    requires
        old(fs).wf(),
    ensures
        final(fs).wf(),
        final(fs).root == old(fs).root,
        final(fs).current_user == old(fs).current_user,
        cd_post(
            old(fs).root,
            views(old(fs).current_path@),
            views(final(fs).current_path@),
            views_s(args@),
            r@,
        ),
{
    if args.len() == 0 {
        let mut home: Vec<String> = Vec::new();
        home.push("home".to_owned());
        home.push("objz".to_owned());
        proof {
            assert(views(home@) =~= seq!["home"@, "objz"@]);
        }
        fs.current_path = home;
        return String::new();
    }
    let new_path = normalize_path(args[0], fs.current_path.as_slice());
    let outcome: u8 = match get_node(&fs.root, new_path.as_slice()) {
        Option::Some(n) => match n {
            Node::Directory { .. } => 0,
            Node::Symlink { .. } => 3,
            _ => 1,
        },
        Option::None => 2,
    };
    if outcome == 0 {
        fs.current_path = new_path;
        return String::new();
    }
    if outcome == 3 {
        let target = match get_node(&fs.root, new_path.as_slice()) {
            Option::Some(n) => match n {
                Node::Symlink { target, .. } => target.clone(),
                _ => String::new(),
            },
            Option::None => String::new(),
        };
        let symlink_path = normalize_path(target.as_str(), fs.current_path.as_slice());
        let sym_ok: u8 = match get_node(&fs.root, symlink_path.as_slice()) {
            Option::Some(m) => match m {
                Node::Directory { .. } => 0,
                _ => 1,
            },
            Option::None => 2,
        };
        if sym_ok == 0 {
            fs.current_path = symlink_path;
            return String::new();
        }
        if sym_ok == 1 {
            return cat3("cd: ", args[0], ": Not a directory");
        }
        return cat3("cd: ", args[0], ": No such file or directory");
    }
    if outcome == 1 {
        return cat3("cd: ", args[0], ": Not a directory");
    }
    cat3("cd: ", args[0], ": No such file or directory")
}

/// One file's contribution to `cat`'s output.
pub open spec fn cat_piece(root: Node, cur: Seq<Seq<char>>, argvs: Seq<Seq<char>>, k: int) -> Seq<
    char,
> {
    let arg = argvs[k];
    match lookup(root, normalize_model(arg, cur)) {
        Option::Some(n) => match n {
            Node::File { content, .. } => content@ + (if argvs.len() > 1 && arg != argvs.last() {
                "\n"@
            } else {
                Seq::<char>::empty()
            }),
            Node::Directory { .. } => "cat: "@ + arg + ": Is a directory\n"@,
            Node::Symlink { target, .. } => "cat: "@ + arg + ": Symbolic link (points to "@
                + target@ + ")\n"@,
        },
        Option::None => "cat: "@ + arg + ": No such file or directory\n"@,
    }
}

/// `cat`'s raw output over all its arguments, in order.
pub open spec fn cat_fold(root: Node, cur: Seq<Seq<char>>, argvs: Seq<Seq<char>>, k: int) -> Seq<
    char,
>
    decreases argvs.len() - k,
{
    if k < 0 || k >= argvs.len() {
        Seq::empty()
    } else {
        cat_piece(root, cur, argvs, k) + cat_fold(root, cur, argvs, k + 1)
    }
}

/// What `cat` prints for a root, working directory and argument list.
pub open spec fn cat_post(root: Node, cur: Seq<Seq<char>>, argvs: Seq<Seq<char>>, out: Seq<char>) -> bool {
    if argvs.len() == 0 {
        out == "cat: missing file operand"@
    } else {
        out == trim_end_spec(cat_fold(root, cur, argvs, 0))
    }
}

/// Prints files back to back; errors for a missing or non-file argument
/// appear inline, and trailing whitespace is trimmed at the end.
pub fn cat(fs: &Filesystem, args: &[&str]) -> (r: String)
    requires
        fs.wf(),
    ensures
        cat_post(fs.root, views(fs.current_path@), views_s(args@), r@),
{
    if args.len() == 0 {
        return "cat: missing file operand".to_owned();
    }
    let mut output = String::new();
    let mut k: usize = 0;
    while k < args.len()
        invariant
            fs.wf(),
            k <= args@.len(),
            1 <= args@.len(),
            cat_fold(fs.root, views(fs.current_path@), views_s(args@), 0) == output@ + cat_fold(
                fs.root,
                views(fs.current_path@),
                views_s(args@),
                k as int,
            ),
        decreases args@.len() - k,
    {
        let ghost argvs = views_s(args@);
        let file_path = normalize_path(args[k], fs.current_path.as_slice());
        let is_last_same = args.len() > 1 && {
            let last = args[args.len() - 1];
            str_eq(args[k], last)
        };
        proof {
            assert(argvs[k as int] == args@[k as int]@);
            assert(argvs.last() == args@[args@.len() - 1]@);
        }
        match get_node(&fs.root, file_path.as_slice()) {
            Option::Some(n) => match n {
                Node::File { content, .. } => {
                    output.append(content.as_str());
                    if args.len() > 1 && !is_last_same {
                        output.append("\n");
                    } else {
                        proof {
                            assert(output@ + Seq::<char>::empty() =~= output@);
                        }
                    }
                },
                Node::Directory { .. } => {
                    let msg = cat3("cat: ", args[k], ": Is a directory\n");
                    output.append(msg.as_str());
                },
                Node::Symlink { target, .. } => {
                    let head = cat3("cat: ", args[k], ": Symbolic link (points to ");
                    let msg = cat2(head.as_str(), cat2(target.as_str(), ")\n").as_str());
                    output.append(msg.as_str());
                },
            },
            Option::None => {
                let msg = cat3("cat: ", args[k], ": No such file or directory\n");
                output.append(msg.as_str());
            },
        }
        k = k + 1;
        proof {
            assert(cat_fold(fs.root, views(fs.current_path@), argvs, 0) =~= output@ + cat_fold(
                fs.root,
                views(fs.current_path@),
                argvs,
                k as int,
            ));
        }
    }
    proof {
        assert(cat_fold(fs.root, views(fs.current_path@), views_s(args@), args@.len() as int)
            == Seq::<char>::empty());
        assert(output@ + Seq::<char>::empty() =~= output@);
    }
    trim_end(output.as_str())
}

/// What `uname` prints for an argument list.
pub open spec fn uname_post(argvs: Seq<Seq<char>>, out: Seq<char>) -> bool {
    if argvs.len() == 0 || argvs[0] == "-s"@ {
        out == "WASM"@
    } else if argvs[0] == "-a"@ {
        out
            == "WASM wasm-host 1.0.0 #1 SMP PREEMPT_DYNAMIC Mon Jan 1 12:00:00 UTC 2025 wasm32 GNU/Linux"@
    } else {
        out == "uname: invalid option"@
    }
}

/// Reports the system name.
pub fn uname(args: &[&str]) -> (r: String)
    ensures
        uname_post(views_s(args@), r@),
{
    proof {
        reveal_strlit("-s");
        reveal_strlit("-a");
        assert("-s"@[1] == 's' && "-a"@[1] == 'a');
        assert("-s"@ != "-a"@);
    }
    if args.len() == 0 || str_eq(args[0], "-s") {
        "WASM".to_owned()
    } else if str_eq(args[0], "-a") {
        "WASM wasm-host 1.0.0 #1 SMP PREEMPT_DYNAMIC Mon Jan 1 12:00:00 UTC 2025 wasm32 GNU/Linux".to_owned()
    } else {
        "uname: invalid option".to_owned()
    }
}

/// What `sudo` prints for an argument list.
pub open spec fn sudo_post(argvs: Seq<Seq<char>>, out: Seq<char>) -> bool {
    if argvs.len() == 0 {
        out == "sudo: command required"@
    } else {
        out == "Sudo access denied."@
    }
}

/// Refuses elevation, politely.
pub fn sudo(args: &[&str]) -> (r: String)
    ensures
        sudo_post(views_s(args@), r@),
{
    if args.len() == 0 {
        return "sudo: command required".to_owned();
    }
    "Sudo access denied.".to_owned()
}

/// The cow's speech bubble and body around a message.
pub open spec fn cowsay_spec(message: Seq<char>, bubble: Seq<char>) -> Seq<char> {
    " "@ + bubble + "\n< "@ + message + " >\n "@ + bubble
        + "\n        \\   ^__^\n         \\  (oo)\\_______\n            (__)\\       )\\/\\\n                ||----w |\n                ||     ||"@
}

/// What `cowsay` prints for an argument list.
pub open spec fn cowsay_post(argvs: Seq<Seq<char>>, out: Seq<char>) -> bool {
    let message: Seq<char> = if argvs.len() == 0 {
        "Hello from WASM!"@
    } else {
        join_sep(argvs, " "@)
    };
    out == cowsay_spec(
        message,
        repeat_char(
            '-',
            crate::buffer::min_int(crate::strutil::encoded_len(message) + 2, usize::MAX as int),
        ),
    )
}

/// Draws the cow saying the arguments, or its stock greeting.
pub fn cowsay(args: &[&str]) -> (r: String)
    ensures
        cowsay_post(views_s(args@), r@),
{
    let message: String = if args.len() == 0 {
        "Hello from WASM!".to_owned()
    } else {
        join_strs(args, " ")
    };
    let blen = message.as_str().len();
    let bubble_line = repeat_char_str(
        '-',
        if blen <= usize::MAX - 2 {
            blen + 2
        } else {
            usize::MAX
        },
    );
    let mut r = cat2(" ", bubble_line.as_str());
    r.append("\n< ");
    r.append(message.as_str());
    r.append(" >\n ");
    r.append(bubble_line.as_str());
    r.append(
        "\n        \\   ^__^\n         \\  (oo)\\_______\n            (__)\\       )\\/\\\n                ||----w |\n                ||     ||",
    );
    proof {
        let message_s: Seq<char> = if args@.len() == 0 {
            "Hello from WASM!"@
        } else {
            join_sep(views_s(args@), " "@)
        };
        assert(message@ == message_s);
        assert(bubble_line@ == repeat_char(
            '-',
            crate::buffer::min_int(
                crate::strutil::encoded_len(message_s) + 2,
                usize::MAX as int,
            ),
        ));
        assert(r@ == cowsay_spec(message_s, bubble_line@));
    }
    r
}

/// What `lolcat` prints for an argument list.
pub open spec fn lolcat_post(argvs: Seq<Seq<char>>, out: Seq<char>) -> bool {
    if argvs.len() == 0 {
        out == "Usage: lolcat <text>"@
    } else {
        out == "\u{1f308} "@ + join_sep(argvs, " "@) + " \u{1f308}"@
    }
}

/// Paints the arguments as a rainbow, or asks for some.
pub fn lolcat(args: &[&str]) -> (r: String)
    ensures
        lolcat_post(views_s(args@), r@),
{
    if args.len() == 0 {
        "Usage: lolcat <text>".to_owned()
    } else {
        let mut r = cat2("\u{1f308} ", join_strs(args, " ").as_str());
        r.append(" \u{1f308}");
        r
    }
}

/// The help screen.
/// The help screen's text.
pub open spec fn help_text() -> Seq<char> {
    "Available commands:\n\nSystem Info:\n  uname       - System information\n  uptime      - System uptime\n  neofetch    - Detailed system info\n  date        - Current date and time\n\nFile System:\n  ls, ll      - List directory contents\n  cd          - Change directory\n  pwd         - Print working directory\n  cat         - Display file contents\n  tree        - Display directory tree\n  mkdir       - Create directory\n  touch       - Create empty file\n  rm          - Remove files/directories\n  ln          - Create symbolic links\n\nUtilities:\n  clear       - Clear screen\n  history     - Command history\n  echo        - Display text\n  cowsay      - ASCII cow with message\n  sl          - Steam locomotive\n  lolcat      - Rainbow text\n  calc        - Calculator\n  sudo        - Sudo access\n\n\nType `ls`, then `cd projects` and `ls` again.  \nRun a project with `./project-name`.\""@
}

pub fn help(args: &[&str]) -> (r: String)
    ensures
        r@ == help_text(),
{
    "Available commands:\n\nSystem Info:\n  uname       - System information\n  uptime      - System uptime\n  neofetch    - Detailed system info\n  date        - Current date and time\n\nFile System:\n  ls, ll      - List directory contents\n  cd          - Change directory\n  pwd         - Print working directory\n  cat         - Display file contents\n  tree        - Display directory tree\n  mkdir       - Create directory\n  touch       - Create empty file\n  rm          - Remove files/directories\n  ln          - Create symbolic links\n\nUtilities:\n  clear       - Clear screen\n  history     - Command history\n  echo        - Display text\n  cowsay      - ASCII cow with message\n  sl          - Steam locomotive\n  lolcat      - Rainbow text\n  calc        - Calculator\n  sudo        - Sudo access\n\n\nType `ls`, then `cd projects` and `ls` again.  \nRun a project with `./project-name`.\"".to_owned()
}

/// The still image of the locomotive, for when the animation is not run.
pub fn sl(args: &[&str]) -> (r: String)
    ensures
        r@.len() > 0,
        r@ == sl_text(),
{
    proof {
        reveal_strlit(
            "                 (@@) (  ) (@)  ( )  @@    ()    @     O     @     O      @\n            (   )\n        (@@@@)\n     (    )\n\n   (@@@)\n====        ________                ___________\n_D _|  |_______/        \\__I_I_____===__|_________|\n |(_)---  |   H\\________/ |   |        =|___ ___|      _________________\n /     |  |   H  |  |     |   |         ||_| |_||     _|                \\_____A\n|      |  |   H  |__--------------------| [___] |   =|                        |\n| ________|___H__/__|_____/[][]~\\_______|       |   -|                        |\n|/ |   |-----------I_____I [][] []  D   |=======|____|________________________|_\n__/ =| o |=-~O=====O=====O=====O\\ ____Y___________|__|__________________________|_\n |/-=|___|=    ||    ||    ||    |_____/~\\___/          |_D__D__D_|  |_D__D__D_|\n  \\_/      \\__/  \\__/  \\__/  \\__/      \\_/               \\_/   \\_/    \\_/   \\_/\n\nYou have new mail.",
        );
    }
    "                 (@@) (  ) (@)  ( )  @@    ()    @     O     @     O      @\n            (   )\n        (@@@@)\n     (    )\n\n   (@@@)\n====        ________                ___________\n_D _|  |_______/        \\__I_I_____===__|_________|\n |(_)---  |   H\\________/ |   |        =|___ ___|      _________________\n /     |  |   H  |  |     |   |         ||_| |_||     _|                \\_____A\n|      |  |   H  |__--------------------| [___] |   =|                        |\n| ________|___H__/__|_____/[][]~\\_______|       |   -|                        |\n|/ |   |-----------I_____I [][] []  D   |=======|____|________________________|_\n__/ =| o |=-~O=====O=====O=====O\\ ____Y___________|__|__________________________|_\n |/-=|___|=    ||    ||    ||    |_____/~\\___/          |_D__D__D_|  |_D__D__D_|\n  \\_/      \\__/  \\__/  \\__/  \\__/      \\_/               \\_/   \\_/    \\_/   \\_/\n\nYou have new mail.".to_owned()
}

/// What `sl` prints.
pub open spec fn sl_text() -> Seq<char> {
    "                 (@@) (  ) (@)  ( )  @@    ()    @     O     @     O      @\n            (   )\n        (@@@@)\n     (    )\n\n   (@@@)\n====        ________                ___________\n_D _|  |_______/        \\__I_I_____===__|_________|\n |(_)---  |   H\\________/ |   |        =|___ ___|      _________________\n /     |  |   H  |  |     |   |         ||_| |_||     _|                \\_____A\n|      |  |   H  |__--------------------| [___] |   =|                        |\n| ________|___H__/__|_____/[][]~\\_______|       |   -|                        |\n|/ |   |-----------I_____I [][] []  D   |=======|____|________________________|_\n__/ =| o |=-~O=====O=====O=====O\\ ____Y___________|__|__________________________|_\n |/-=|___|=    ||    ||    ||    |_____/~\\___/          |_D__D__D_|  |_D__D__D_|\n  \\_/      \\__/  \\__/  \\__/  \\__/      \\_/               \\_/   \\_/    \\_/   \\_/\n\nYou have new mail.".view()
}

/// What `echo` prints for an argument list.
pub open spec fn echo_post(argvs: Seq<Seq<char>>, out: Seq<char>) -> bool {
    if argvs.len() == 0 {
        out == Seq::<char>::empty()
    } else if argvs[0] == "$USER"@ {
        out == "objz"@
    } else {
        out == join_sep(argvs, " "@)
    }
}

/// Echoes its arguments; `$USER` alone prints the user banner.
pub fn echo(args: &[&str]) -> (r: String)
    ensures
        echo_post(views_s(args@), r@),
{
    if args.len() == 0 {
        String::new()
    } else if str_eq(args[0], "$USER") {
        crate::ascii::AsciiArt::get_user()
    } else {
        join_strs(args, " ")
    }
}

/// A `-` prefixed word whose first letter outside `rRf` makes `rm` refuse
/// its flags.
pub open spec fn first_bad_flag(s: Seq<char>, i: int) -> Option<char>
    decreases s.len() - i,
{
    if i < 1 || i >= s.len() {
        Option::None
    } else if s[i] == 'r' || s[i] == 'R' || s[i] == 'f' {
        first_bad_flag(s, i + 1)
    } else {
        Option::Some(s[i])
    }
}

/// Whether the whole input is the forbidden recursive removal of the root
/// (or of the current directory while at the root): `sudo rm` with an
/// `rf`-like flag and a root-denoting target.
pub open spec fn should_panic_spec(input: Seq<char>, at_root: bool) -> bool {
    let parts = split_ws(input, 0);
    &&& parts.len() >= 4
    &&& parts[0] == "sudo"@
    &&& parts[1] == "rm"@
    &&& (exists|i: int| 0 <= i < parts.len() && is_rf_flag(#[trigger] parts[i]))
    &&& (exists|i: int| 3 <= i < parts.len() && is_root_target(#[trigger] parts[i], at_root))
}

pub open spec fn is_rf_flag(p: Seq<char>) -> bool {
    ||| p == "-rf"@
    ||| p == "-fr"@
    ||| contains_sub(p, "rf"@)
    ||| contains_sub(p, "fr"@)
}

pub open spec fn is_root_target(p: Seq<char>, at_root: bool) -> bool {
    ||| p == "/"@
    ||| (starts_with_spec(p, "./"@) && at_root)
}

/// Decides whether typed input triggers the fake system meltdown.
/// `at_root` says whether the working directory is the filesystem root.
pub fn should_panic(input: &str, at_root: bool) -> (r: bool)
    ensures
        r == should_panic_spec(input@, at_root),
{
    let parts = split_ws_vec(input);
    let ghost pv = split_ws(input@, 0);
    if parts.len() < 4 || !str_eq(parts[0].as_str(), "sudo") || !str_eq(
        parts[1].as_str(),
        "rm",
    ) {
        return false;
    }
    proof {
        assert(pv.len() == parts@.len());
        assert(pv[0] == parts@[0]@);
        assert(pv[1] == parts@[1]@);
    }
    let mut has_rf = false;
    let mut i: usize = 0;
    while i < parts.len()
        invariant
            views(parts@) == pv,
            pv == split_ws(input@, 0),
            pv.len() == parts@.len(),
            i <= parts@.len(),
            has_rf == exists|k: int| 0 <= k < i && is_rf_flag(#[trigger] pv[k]),
        decreases parts@.len() - i,
    {
        let p = &parts[i];
        let hit = str_eq(p.as_str(), "-rf") || str_eq(p.as_str(), "-fr") || contains_str(
            p.as_str(),
            "rf",
        ) || contains_str(p.as_str(), "fr");
        proof {
            assert(pv[i as int] == parts@[i as int]@);
        }
        if hit {
            has_rf = true;
        }
        i = i + 1;
    }
    if !has_rf {
        return false;
    }
    let mut j: usize = 3;
    while j < parts.len()
        invariant
            views(parts@) == pv,
            pv == split_ws(input@, 0),
            pv.len() == parts@.len(),
            parts@.len() >= 4,
            pv[0] == "sudo"@,
            pv[1] == "rm"@,
            exists|k: int| 0 <= k < pv.len() && is_rf_flag(#[trigger] pv[k]),
            3 <= j <= parts@.len(),
            forall|k: int| 3 <= k < j ==> !is_root_target(#[trigger] pv[k], at_root),
        decreases parts@.len() - j,
    {
        let p = &parts[j];
        proof {
            assert(pv[j as int] == parts@[j as int]@);
        }
        if str_eq(p.as_str(), "/") || (starts_with(p.as_str(), "./") && at_root) {
            proof {
                assert(pv.len() >= 4);
                assert(pv[0] == "sudo"@);
                assert(pv[1] == "rm"@);
                assert(is_root_target(pv[j as int], at_root));
                assert(exists|k: int| 3 <= k < pv.len() && is_root_target(
                    #[trigger] pv[k],
                    at_root,
                ));
                assert(exists|k: int| 0 <= k < pv.len() && is_rf_flag(#[trigger] pv[k]));
                assert(should_panic_spec(input@, at_root));
            }
            return true;
        }
        j = j + 1;
    }
    false
}

/// Two trees that agree on every path's observable entry.
pub open spec fn same_entries(a: Node, b: Node) -> bool {
    forall|q: Seq<Seq<char>>| fs_entry(a, q) == fs_entry(b, q)
}

/// A childless node was created at `tgt`: it reads as `e`, everything
/// else is untouched, and nothing lives below it.
pub open spec fn leaf_inserted(
    oldr: Node,
    newr: Node,
    tgt: Seq<Seq<char>>,
    e: (int, Seq<char>, u16, Seq<char>, bool),
) -> bool {
    &&& fs_entry(newr, tgt) == Option::Some(e)
    &&& forall|q: Seq<Seq<char>>| !crate::fs::path_extends(q, tgt) ==> fs_entry(newr, q)
        == fs_entry(oldr, q)
    &&& forall|q: Seq<Seq<char>>|
        crate::fs::path_extends(q, tgt) && q != tgt ==> fs_entry(newr, q) is None
}

/// The subtree at `tgt` was removed: every path into it is gone and
/// everything else is untouched.
pub open spec fn subtree_removed(oldr: Node, newr: Node, tgt: Seq<Seq<char>>) -> bool {
    &&& forall|q: Seq<Seq<char>>| !crate::fs::path_extends(q, tgt) ==> fs_entry(newr, q)
        == fs_entry(oldr, q)
    &&& forall|q: Seq<Seq<char>>| crate::fs::path_extends(q, tgt) ==> fs_entry(newr, q) is None
}

/// `mkdir` over its arguments, left to right: each either creates a fresh
/// empty directory or stops everything with its exact error message.
pub open spec fn mkdir_run(
    oldr: Node,
    newr: Node,
    cur: Seq<Seq<char>>,
    user: Seq<char>,
    argvs: Seq<Seq<char>>,
    k: int,
    out: Seq<char>,
) -> bool
    decreases argvs.len() - k,
{
    if k < 0 || k >= argvs.len() {
        newr == oldr && out == Seq::<char>::empty()
    } else {
        let arg = argvs[k];
        let dp = normalize_model(arg, cur);
        if dp.len() == 0 {
            newr == oldr && out == "mkdir: cannot create directory '/': File exists"@
        } else {
            match lookup(oldr, dp.drop_last()) {
                Option::Some(p) => if !(p is Directory) {
                    same_entries(oldr, newr) && out == "mkdir: cannot create directory '"@ + arg
                        + "': Not a directory"@
                } else if lookup(oldr, dp) is Some {
                    same_entries(oldr, newr) && out == "mkdir: cannot create directory '"@ + arg
                        + "': File exists"@
                } else {
                    exists|mid: Node|
                        #[trigger] leaf_inserted(
                            oldr,
                            mid,
                            dp,
                            (1int, Seq::<char>::empty(), 0o755u16, user, false),
                        ) && mkdir_run(mid, newr, cur, user, argvs, k + 1, out)
                },
                Option::None => same_entries(oldr, newr) && out
                    == "mkdir: cannot create directory '"@ + arg
                    + "': No such file or directory"@,
            }
        }
    }
}

/// What `mkdir` does over all its arguments.
pub open spec fn mkdir_post(
    oldr: Node,
    newr: Node,
    cur: Seq<Seq<char>>,
    user: Seq<char>,
    argvs: Seq<Seq<char>>,
    out: Seq<char>,
) -> bool {
    if argvs.len() == 0 {
        newr == oldr && out == "mkdir: missing operand"@
    } else {
        mkdir_run(oldr, newr, cur, user, argvs, 0, out)
    }
}

/// Creates directories; the first failure stops the run with its message,
/// keeping what was already made.
pub fn mkdir(fs: &mut Filesystem, args: &[&str]) -> (r: String)
    requires
        old(fs).wf(),
    ensures
        final(fs).wf(),
        final(fs).current_path == old(fs).current_path,
        final(fs).current_user == old(fs).current_user,
        mkdir_post(
            old(fs).root,
            final(fs).root,
            views(old(fs).current_path@),
            old(fs).current_user@,
            views_s(args@),
            r@,
        ),
{
    if args.len() == 0 {
        return "mkdir: missing operand".to_owned();
    }
    mkdir_from(fs, args, 0)
}

fn mkdir_from(fs: &mut Filesystem, args: &[&str], k: usize) -> (r: String)
    requires
        old(fs).wf(),
        k <= args@.len(),
    ensures
        final(fs).wf(),
        final(fs).current_path == old(fs).current_path,
        final(fs).current_user == old(fs).current_user,
        mkdir_run(
            old(fs).root,
            final(fs).root,
            views(old(fs).current_path@),
            old(fs).current_user@,
            views_s(args@),
            k as int,
            r@,
        ),
    decreases args@.len() - k,
{
    if k == args.len() {
        return String::new();
    }
    let ghost cur = views(old(fs).current_path@);
    let dir_path = normalize_path(args[k], fs.current_path.as_slice());
    let ghost dp = normalize_model(args@[k as int]@, cur);
    proof {
        assert(views_s(args@)[k as int] == args@[k as int]@);
        assert(views(dir_path@) == dp);
    }
    if dir_path.len() == 0 {
        return "mkdir: cannot create directory '/': File exists".to_owned();
    }
    let parent = &dir_path.as_slice()[0..dir_path.len() - 1];
    let name = dir_path[dir_path.len() - 1].clone();
    proof {
        assert(views(parent@) =~= dp.drop_last());
        assert(name@ == dp.last());
        assert(dp.drop_last().push(dp.last()) =~= dp);
    }
    let child = Node::Directory {
        children: Vec::new(),
        permissions: 0o755,
        owner: fs.current_user.clone(),
        protected: false,
    };
    let ghost child_g = child;
    let op = insert_child(&mut fs.root, parent, 0, name, child);
    proof {
        assert(views(parent@).skip(0) =~= views(parent@));
    }
    match op {
        FsOp::Done => {
            let ghost mid = fs.root;
            proof {
                assert(fs_entry(child_g, Seq::<Seq<char>>::empty()) == Option::Some(
                    (1int, Seq::<char>::empty(), 0o755u16, old(fs).current_user@, false),
                ));
                assert forall|q: Seq<Seq<char>>|
                    crate::fs::path_extends(q, dp) && q != dp implies fs_entry(mid, q)
                    is None by {
                    assert(q.skip(dp.len() as int).len() > 0) by {
                        if q.len() == dp.len() {
                            assert(q.subrange(0, dp.len() as int) =~= q);
                        }
                    }
                    assert(lookup(child_g, q.skip(dp.len() as int)) is None);
                }
                assert(dp.skip(dp.len() as int) =~= Seq::<Seq<char>>::empty());
                assert(dp.subrange(0, dp.len() as int) =~= dp);
                assert(crate::fs::path_extends(dp, dp));
                assert(leaf_inserted(
                    old(fs).root,
                    mid,
                    dp,
                    (1int, Seq::<char>::empty(), 0o755u16, old(fs).current_user@, false),
                ));
            }
            let rest = mkdir_from(fs, args, k + 1);
            proof {
                let user = old(fs).current_user@;
                let argvs = views_s(args@);
                assert(mkdir_run(mid, fs.root, cur, user, argvs, k as int + 1, rest@));
                assert(leaf_inserted(
                    old(fs).root,
                    mid,
                    dp,
                    (1int, Seq::<char>::empty(), 0o755u16, user, false),
                ) && mkdir_run(mid, fs.root, cur, user, argvs, k as int + 1, rest@));
                assert(mkdir_run(old(fs).root, fs.root, cur, user, argvs, k as int, rest@));
            }
            rest
        },
        FsOp::NotFound => cat3("mkdir: cannot create directory '", args[k], "': No such file or directory"),
        FsOp::NotDirectory => cat3("mkdir: cannot create directory '", args[k], "': Not a directory"),
        _ => cat3("mkdir: cannot create directory '", args[k], "': File exists"),
    }
}


/// `touch` over its arguments: each creates an empty file unless the path
/// is unusable; an existing entry or an empty path is silently skipped.
pub open spec fn touch_run(
    oldr: Node,
    newr: Node,
    cur: Seq<Seq<char>>,
    user: Seq<char>,
    argvs: Seq<Seq<char>>,
    k: int,
    out: Seq<char>,
) -> bool
    decreases argvs.len() - k,
{
    if k < 0 || k >= argvs.len() {
        newr == oldr && out == Seq::<char>::empty()
    } else {
        let arg = argvs[k];
        let fp = normalize_model(arg, cur);
        if fp.len() == 0 {
            touch_run(oldr, newr, cur, user, argvs, k + 1, out)
        } else {
            match lookup(oldr, fp.drop_last()) {
                Option::Some(p) => if !(p is Directory) {
                    same_entries(oldr, newr) && out == "touch: cannot touch '"@ + arg
                        + "': Not a directory"@
                } else if lookup(oldr, fp) is Some {
                    exists|mid: Node|
                        #[trigger] same_entries(oldr, mid) && touch_run(
                            mid,
                            newr,
                            cur,
                            user,
                            argvs,
                            k + 1,
                            out,
                        )
                } else {
                    exists|mid: Node|
                        #[trigger] leaf_inserted(
                            oldr,
                            mid,
                            fp,
                            (0int, Seq::<char>::empty(), 0o644u16, user, false),
                        ) && touch_run(mid, newr, cur, user, argvs, k + 1, out)
                },
                Option::None => same_entries(oldr, newr) && out == "touch: cannot touch '"@ + arg
                    + "': No such file or directory"@,
            }
        }
    }
}

/// What `touch` does over all its arguments.
pub open spec fn touch_post(
    oldr: Node,
    newr: Node,
    cur: Seq<Seq<char>>,
    user: Seq<char>,
    argvs: Seq<Seq<char>>,
    out: Seq<char>,
) -> bool {
    if argvs.len() == 0 {
        newr == oldr && out == "touch: missing file operand"@
    } else {
        touch_run(oldr, newr, cur, user, argvs, 0, out)
    }
}

/// Creates empty files; existing entries are left alone, and the first
/// unusable path stops the run with its message.
pub fn touch(fs: &mut Filesystem, args: &[&str]) -> (r: String)
    requires
        old(fs).wf(),
    ensures
        final(fs).wf(),
        final(fs).current_path == old(fs).current_path,
        final(fs).current_user == old(fs).current_user,
        touch_post(
            old(fs).root,
            final(fs).root,
            views(old(fs).current_path@),
            old(fs).current_user@,
            views_s(args@),
            r@,
        ),
{
    if args.len() == 0 {
        return "touch: missing file operand".to_owned();
    }
    touch_from(fs, args, 0)
}

fn touch_from(fs: &mut Filesystem, args: &[&str], k: usize) -> (r: String)
    requires
        old(fs).wf(),
        k <= args@.len(),
    ensures
        final(fs).wf(),
        final(fs).current_path == old(fs).current_path,
        final(fs).current_user == old(fs).current_user,
        touch_run(
            old(fs).root,
            final(fs).root,
            views(old(fs).current_path@),
            old(fs).current_user@,
            views_s(args@),
            k as int,
            r@,
        ),
    decreases args@.len() - k,
{
    if k == args.len() {
        return String::new();
    }
    let ghost cur = views(old(fs).current_path@);
    let file_path = normalize_path(args[k], fs.current_path.as_slice());
    let ghost fp = normalize_model(args@[k as int]@, cur);
    proof {
        assert(views_s(args@)[k as int] == args@[k as int]@);
        assert(views(file_path@) == fp);
    }
    if file_path.len() == 0 {
        return touch_from(fs, args, k + 1);
    }
    let parent = &file_path.as_slice()[0..file_path.len() - 1];
    let name = file_path[file_path.len() - 1].clone();
    proof {
        assert(views(parent@) =~= fp.drop_last());
        assert(name@ == fp.last());
        assert(fp.drop_last().push(fp.last()) =~= fp);
    }
    let child = Node::File {
        content: String::new(),
        permissions: 0o644,
        owner: fs.current_user.clone(),
        protected: false,
    };
    let ghost child_g = child;
    let op = insert_child(&mut fs.root, parent, 0, name, child);
    proof {
        assert(views(parent@).skip(0) =~= views(parent@));
    }
    match op {
        FsOp::Done => {
            let ghost mid = fs.root;
            proof {
                assert(fs_entry(child_g, Seq::<Seq<char>>::empty()) == Option::Some(
                    (0int, Seq::<char>::empty(), 0o644u16, old(fs).current_user@, false),
                ));
                assert forall|q: Seq<Seq<char>>|
                    crate::fs::path_extends(q, fp) && q != fp implies fs_entry(mid, q)
                    is None by {
                    assert(q.skip(fp.len() as int).len() > 0) by {
                        if q.len() == fp.len() {
                            assert(q.subrange(0, fp.len() as int) =~= q);
                        }
                    }
                    assert(lookup(child_g, q.skip(fp.len() as int)) is None);
                }
                assert(fp.skip(fp.len() as int) =~= Seq::<Seq<char>>::empty());
                assert(fp.subrange(0, fp.len() as int) =~= fp);
                assert(crate::fs::path_extends(fp, fp));
                assert(leaf_inserted(
                    old(fs).root,
                    mid,
                    fp,
                    (0int, Seq::<char>::empty(), 0o644u16, old(fs).current_user@, false),
                ));
            }
            let rest = touch_from(fs, args, k + 1);
            proof {
                let user = old(fs).current_user@;
                let argvs = views_s(args@);
                assert(leaf_inserted(
                    old(fs).root,
                    mid,
                    fp,
                    (0int, Seq::<char>::empty(), 0o644u16, user, false),
                ) && touch_run(mid, fs.root, cur, user, argvs, k as int + 1, rest@));
                assert(touch_run(old(fs).root, fs.root, cur, user, argvs, k as int, rest@));
            }
            rest
        },
        FsOp::Exists => {
            let ghost mid = fs.root;
            let rest = touch_from(fs, args, k + 1);
            proof {
                let user = old(fs).current_user@;
                let argvs = views_s(args@);
                assert(same_entries(old(fs).root, mid) && touch_run(
                    mid,
                    fs.root,
                    cur,
                    user,
                    argvs,
                    k as int + 1,
                    rest@,
                ));
                assert(touch_run(old(fs).root, fs.root, cur, user, argvs, k as int, rest@));
            }
            rest
        },
        FsOp::NotFound => cat3("touch: cannot touch '", args[k], "': No such file or directory"),
        _ => cat3("touch: cannot touch '", args[k], "': Not a directory"),
    }
}

/// What `ln -s` answers and does: only symbolic links are supported, and
/// the link must land in an existing directory under a fresh name.
pub open spec fn ln_spec(
    oldr: Node,
    newr: Node,
    cur: Seq<Seq<char>>,
    user: Seq<char>,
    argvs: Seq<Seq<char>>,
    out: Seq<char>,
) -> bool {
    if argvs.len() < 2 {
        newr == oldr && out == "ln: missing file operand"@
    } else if argvs[0] != "-s"@ {
        newr == oldr && out == "ln: hard links not supported in this filesystem"@
    } else if argvs.len() < 3 {
        newr == oldr && out == "ln: missing file operand"@
    } else {
        let lp = normalize_model(argvs[2], cur);
        if lp.len() == 0 {
            newr == oldr && out == "ln: cannot create link '/': File exists"@
        } else {
            match lookup(oldr, lp.drop_last()) {
                Option::Some(p) => if !(p is Directory) {
                    same_entries(oldr, newr) && out == "ln: cannot create link '"@ + argvs[2]
                        + "': Not a directory"@
                } else if lookup(oldr, lp) is Some {
                    same_entries(oldr, newr) && out == "ln: cannot create link '"@ + argvs[2]
                        + "': File exists"@
                } else {
                    leaf_inserted(oldr, newr, lp, (2int, argvs[1], 0o777u16, user, false)) && out
                        == Seq::<char>::empty()
                },
                Option::None => same_entries(oldr, newr) && out == "ln: cannot create link '"@
                    + argvs[2] + "': No such file or directory"@,
            }
        }
    }
}

/// Creates a symbolic link.
pub fn ln(fs: &mut Filesystem, args: &[&str]) -> (r: String)
    requires
        old(fs).wf(),
    ensures
        final(fs).wf(),
        final(fs).current_path == old(fs).current_path,
        final(fs).current_user == old(fs).current_user,
        ln_spec(
            old(fs).root,
            final(fs).root,
            views(old(fs).current_path@),
            old(fs).current_user@,
            views_s(args@),
            r@,
        ),
{
    proof {
        reveal_strlit("-s");
        if args@.len() >= 1 {
            assert(views_s(args@)[0] == args@[0]@);
        }
        if args@.len() >= 2 {
            assert(views_s(args@)[1] == args@[1]@);
        }
        if args@.len() >= 3 {
            assert(views_s(args@)[2] == args@[2]@);
        }
    }
    if args.len() < 2 {
        return "ln: missing file operand".to_owned();
    }
    if !str_eq(args[0], "-s") {
        return "ln: hard links not supported in this filesystem".to_owned();
    }
    if args.len() < 3 {
        return "ln: missing file operand".to_owned();
    }
    let target = args[1];
    let link_name = args[2];
    let ghost cur = views(old(fs).current_path@);
    let link_path = normalize_path(link_name, fs.current_path.as_slice());
    let ghost lp = normalize_model(args@[2]@, cur);
    proof {
        assert(views(link_path@) == lp);
    }
    if link_path.len() == 0 {
        return "ln: cannot create link '/': File exists".to_owned();
    }
    let parent = &link_path.as_slice()[0..link_path.len() - 1];
    let name = link_path[link_path.len() - 1].clone();
    proof {
        assert(views(parent@) =~= lp.drop_last());
        assert(name@ == lp.last());
        assert(lp.drop_last().push(lp.last()) =~= lp);
    }
    let child = Node::Symlink { target: target.to_owned(), owner: fs.current_user.clone() };
    let ghost child_g = child;
    let op = insert_child(&mut fs.root, parent, 0, name, child);
    proof {
        assert(views(parent@).skip(0) =~= views(parent@));
    }
    match op {
        FsOp::Done => {
            proof {
                assert(fs_entry(child_g, Seq::<Seq<char>>::empty()) == Option::Some(
                    (2int, args@[1]@, 0o777u16, old(fs).current_user@, false),
                ));
                assert forall|q: Seq<Seq<char>>|
                    crate::fs::path_extends(q, lp) && q != lp implies fs_entry(fs.root, q)
                    is None by {
                    assert(q.skip(lp.len() as int).len() > 0) by {
                        if q.len() == lp.len() {
                            assert(q.subrange(0, lp.len() as int) =~= q);
                        }
                    }
                    assert(lookup(child_g, q.skip(lp.len() as int)) is None);
                }
                assert(lp.skip(lp.len() as int) =~= Seq::<Seq<char>>::empty());
                assert(lp.subrange(0, lp.len() as int) =~= lp);
                assert(crate::fs::path_extends(lp, lp));
                assert(leaf_inserted(
                    old(fs).root,
                    fs.root,
                    lp,
                    (2int, args@[1]@, 0o777u16, old(fs).current_user@, false),
                ));
            }
            String::new()
        },
        FsOp::NotFound => cat3("ln: cannot create link '", link_name, "': No such file or directory"),
        FsOp::NotDirectory => cat3("ln: cannot create link '", link_name, "': Not a directory"),
        _ => cat3("ln: cannot create link '", link_name, "': File exists"),
    }
}

pub open spec fn has_rflag_char(a: Seq<char>) -> bool {
    exists|i: int| 1 <= i < a.len() && (a[i] == 'r' || a[i] == 'R')
}

pub open spec fn has_fflag_char(a: Seq<char>) -> bool {
    exists|i: int| 1 <= i < a.len() && a[i] == 'f'
}

/// `rm`'s option scan: dash words accumulate flags until a letter outside
/// `rRf` aborts with that letter; everything else is a file operand.
pub open spec fn rm_parse(
    argvs: Seq<Seq<char>>,
    k: int,
    rec: bool,
    force: bool,
    files: Seq<Seq<char>>,
) -> (Option<char>, bool, bool, Seq<Seq<char>>)
    decreases argvs.len() - k,
{
    if k < 0 || k >= argvs.len() {
        (Option::None, rec, force, files)
    } else {
        let a = argvs[k];
        if a.len() > 0 && a[0] == '-' {
            match first_bad_flag(a, 1) {
                Option::Some(c) => (Option::Some(c), rec, force, files),
                Option::None => rm_parse(
                    argvs,
                    k + 1,
                    rec || has_rflag_char(a),
                    force || has_fflag_char(a),
                    files,
                ),
            }
        } else {
            rm_parse(argvs, k + 1, rec, force, files.push(a))
        }
    }
}

/// `rm` over its file operands: protected entries and entries of another
/// owner always refuse; directories need the recursive flag; `force`
/// silences the skippable complaints.
pub open spec fn rm_run(
    oldr: Node,
    newr: Node,
    cur: Seq<Seq<char>>,
    user: Seq<char>,
    rec: bool,
    force: bool,
    files: Seq<Seq<char>>,
    k: int,
    out: Seq<char>,
) -> bool
    decreases files.len() - k,
{
    if k < 0 || k >= files.len() {
        newr == oldr && out == Seq::<char>::empty()
    } else {
        let arg = files[k];
        let fp = normalize_model(arg, cur);
        if fp.len() == 0 {
            if !force {
                newr == oldr && out == "rm: cannot remove '/': Permission denied"@
            } else {
                rm_run(oldr, newr, cur, user, rec, force, files, k + 1, out)
            }
        } else {
            match lookup(oldr, fp.drop_last()) {
                Option::Some(p) => if !(p is Directory) {
                    if !force {
                        same_entries(oldr, newr) && out == "rm: cannot remove '"@ + arg
                            + "': Not a directory"@
                    } else {
                        exists|mid: Node|
                            #[trigger] same_entries(oldr, mid) && rm_run(
                                mid,
                                newr,
                                cur,
                                user,
                                rec,
                                force,
                                files,
                                k + 1,
                                out,
                            )
                    }
                } else {
                    match lookup(oldr, fp) {
                        Option::Some(nd) => if node_protected(nd) {
                            same_entries(oldr, newr) && out == "rm: cannot remove '"@ + arg
                                + "': Operation not permitted (protected system file)"@
                        } else if node_owner(nd) != user && user != "root"@ {
                            same_entries(oldr, newr) && out == "rm: cannot remove '"@ + arg
                                + "': Permission denied (not owner)"@
                        } else if nd is Directory && !rec {
                            if !force {
                                same_entries(oldr, newr) && out == "rm: cannot remove '"@ + arg
                                    + "': Is a directory"@
                            } else {
                                exists|mid: Node|
                                    #[trigger] same_entries(oldr, mid) && rm_run(
                                        mid,
                                        newr,
                                        cur,
                                        user,
                                        rec,
                                        force,
                                        files,
                                        k + 1,
                                        out,
                                    )
                            }
                        } else {
                            exists|mid: Node|
                                #[trigger] subtree_removed(oldr, mid, fp) && rm_run(
                                    mid,
                                    newr,
                                    cur,
                                    user,
                                    rec,
                                    force,
                                    files,
                                    k + 1,
                                    out,
                                )
                        },
                        Option::None => if !force {
                            same_entries(oldr, newr) && out == "rm: cannot remove '"@ + arg
                                + "': No such file or directory"@
                        } else {
                            exists|mid: Node|
                                #[trigger] same_entries(oldr, mid) && rm_run(
                                    mid,
                                    newr,
                                    cur,
                                    user,
                                    rec,
                                    force,
                                    files,
                                    k + 1,
                                    out,
                                )
                        },
                    }
                },
                Option::None => if !force {
                    same_entries(oldr, newr) && out == "rm: cannot remove '"@ + arg
                        + "': No such file or directory"@
                } else {
                    exists|mid: Node|
                        #[trigger] same_entries(oldr, mid) && rm_run(
                            mid,
                            newr,
                            cur,
                            user,
                            rec,
                            force,
                            files,
                            k + 1,
                            out,
                        )
                },
            }
        }
    }
}

/// What `rm` does over all its arguments.
pub open spec fn rm_post(
    oldr: Node,
    newr: Node,
    cur: Seq<Seq<char>>,
    user: Seq<char>,
    argvs: Seq<Seq<char>>,
    out: Seq<char>,
) -> bool {
    if argvs.len() == 0 {
        newr == oldr && out == "rm: missing operand"@
    } else {
        let parsed = rm_parse(argvs, 0, false, false, Seq::empty());
        match parsed.0 {
            Option::Some(c) => newr == oldr && out == "rm: invalid option -- '"@ + seq![c]
                + "'"@,
            Option::None => rm_run(oldr, newr, cur, user, parsed.1, parsed.2, parsed.3, 0, out),
        }
    }
}

/// Removes files, symlinks and (recursively) directories: protected
/// entries and entries of another owner always refuse.
pub fn rm(fs: &mut Filesystem, args: &[&str]) -> (r: String)
    requires
        old(fs).wf(),
    ensures
        final(fs).wf(),
        final(fs).current_path == old(fs).current_path,
        final(fs).current_user == old(fs).current_user,
        rm_post(
            old(fs).root,
            final(fs).root,
            views(old(fs).current_path@),
            old(fs).current_user@,
            views_s(args@),
            r@,
        ),
{
    if args.len() == 0 {
        return "rm: missing operand".to_owned();
    }
    let ghost argvs = views_s(args@);
    let mut recursive = false;
    let mut force = false;
    let mut files: Vec<&str> = Vec::new();
    let mut k: usize = 0;
    proof {
        assert(views_s(files@) =~= Seq::<Seq<char>>::empty());
    }
    while k < args.len()
        invariant
            *fs == *old(fs),
            old(fs).wf(),
            argvs == views_s(args@),
            k <= args@.len(),
            rm_parse(argvs, 0, false, false, Seq::empty()) == rm_parse(
                argvs,
                k as int,
                recursive,
                force,
                views_s(files@),
            ),
        decreases args@.len() - k,
    {
        let arg = args[k];
        let a = chars_of(arg);
        proof {
            assert(argvs[k as int] == args@[k as int]@);
        }
        if a.len() > 0 && a[0] == '-' {
            let mut j: usize = 1;
            let mut saw_r = false;
            let mut saw_f = false;
            while j < a.len()
                invariant
                    *fs == *old(fs),
                    old(fs).wf(),
                    argvs == views_s(args@),
                    k < args@.len(),
                    a@ == args@[k as int]@,
                    a@.len() > 0 && a@[0] == '-',
                    rm_parse(argvs, 0, false, false, Seq::empty()) == rm_parse(
                        argvs,
                        k as int,
                        recursive,
                        force,
                        views_s(files@),
                    ),
                    1 <= j <= a@.len(),
                    first_bad_flag(a@, 1) == first_bad_flag(a@, j as int),
                    saw_r == exists|i: int| 1 <= i < j && (a@[i] == 'r' || a@[i] == 'R'),
                    saw_f == exists|i: int| 1 <= i < j && a@[i] == 'f',
                decreases a@.len() - j,
            {
                let c = a[j];
                if c == 'r' || c == 'R' {
                    saw_r = true;
                } else if c == 'f' {
                    saw_f = true;
                } else {
                    let mut cs = String::new();
                    crate::strutil::push_char(&mut cs, c);
                    proof {
                        assert(cs@ =~= seq![a@[j as int]]);
                        assert(first_bad_flag(a@, 1) == Option::Some(a@[j as int]));
                        assert(argvs[k as int] == a@);
                        assert(rm_parse(argvs, k as int, recursive, force, views_s(files@)).0
                            == Option::Some(a@[j as int]));
                    }
                    let head = cat3("rm: invalid option -- '", cs.as_str(), "'");
                    return head;
                }
                j = j + 1;
            }
            proof {
                assert(first_bad_flag(a@, a@.len() as int) is None);
            }
            recursive = recursive || saw_r;
            force = force || saw_f;
        } else {
            let ghost prev = files@;
            files.push(arg);
            proof {
                prev.lemma_push_map_commute(|x: &str| x@, files@.last());
                assert(views_s(files@) =~= views_s(prev).push(args@[k as int]@));
            }
        }
        k = k + 1;
    }
    rm_from(fs, recursive, force, &files, 0)
}

fn rm_from(fs: &mut Filesystem, recursive: bool, force: bool, files: &Vec<&str>, k: usize) -> (r:
    String)
    requires
        old(fs).wf(),
        k <= files@.len(),
    ensures
        final(fs).wf(),
        final(fs).current_path == old(fs).current_path,
        final(fs).current_user == old(fs).current_user,
        rm_run(
            old(fs).root,
            final(fs).root,
            views(old(fs).current_path@),
            old(fs).current_user@,
            recursive,
            force,
            views_s(files@),
            k as int,
            r@,
        ),
    decreases files@.len() - k,
{
    proof {
        reveal_strlit("root");
    }
    if k == files.len() {
        return String::new();
    }
    let ghost cur = views(old(fs).current_path@);
    let ghost user = old(fs).current_user@;
    let ghost fvs = views_s(files@);
    let arg = files[k];
    let file_path = normalize_path(arg, fs.current_path.as_slice());
    let ghost fp = normalize_model(fvs[k as int], cur);
    proof {
        assert(fvs[k as int] == files@[k as int]@);
        assert(views(file_path@) == fp);
    }
    if file_path.len() == 0 {
        if !force {
            return "rm: cannot remove '/': Permission denied".to_owned();
        }
        return rm_from(fs, recursive, force, files, k + 1);
    }
    let parent = &file_path.as_slice()[0..file_path.len() - 1];
    let name = file_path[file_path.len() - 1].clone();
    proof {
        assert(views(parent@) =~= fp.drop_last());
        assert(name@ == fp.last());
        assert(fp.drop_last().push(fp.last()) =~= fp);
    }
    // examine the entry before touching anything
    let probe: u8 = match get_node(&fs.root, file_path.as_slice()) {
        Option::Some(nd) => {
            if nd.is_protected() {
                1
            } else if !str_eq(nd.get_owner().as_str(), fs.current_user.as_str()) && !str_eq(
                fs.current_user.as_str(),
                "root",
            ) {
                2
            } else {
                let is_dir = match nd {
                    Node::Directory { .. } => true,
                    _ => false,
                };
                if is_dir && !recursive {
                    3
                } else {
                    0
                }
            }
        },
        Option::None => 4,
    };
    proof {
        crate::fs::lemma_lookup_snoc(fs.root, fp.drop_last(), fp.last());
    }
    if probe == 1 {
        return cat3("rm: cannot remove '", arg, "': Operation not permitted (protected system file)");
    }
    if probe == 2 {
        return cat3("rm: cannot remove '", arg, "': Permission denied (not owner)");
    }
    let ghost root0 = fs.root;
    if probe == 0 {
        let op = remove_child(&mut fs.root, parent, 0, name.as_str());
        proof {
            assert(views(parent@).skip(0) =~= views(parent@));
        }
        match op {
            FsOp::Done => {
                let ghost mid = fs.root;
                proof {
                    assert(fp.subrange(0, fp.len() as int) =~= fp);
                    assert(crate::fs::path_extends(fp, fp));
                    assert(subtree_removed(root0, mid, fp));
                }
                let rest = rm_from(fs, recursive, force, files, k + 1);
                proof {
                    assert(subtree_removed(root0, mid, fp) && rm_run(
                        mid,
                        fs.root,
                        cur,
                        user,
                        recursive,
                        force,
                        fvs,
                        k as int + 1,
                        rest@,
                    ));
                    assert(rm_run(root0, fs.root, cur, user, recursive, force, fvs, k as int, rest@));
                }
                return rest;
            },
            _ => {
                // the probe saw the entry and its parent, so removal
                // cannot have failed
                proof {
                    assert(views(parent@).push(name@) =~= fp);
                    assert(false);
                }
                return String::new();
            },
        }
    }
    if probe == 3 {
        if !force {
            return cat3("rm: cannot remove '", arg, "': Is a directory");
        }
        let ghost mid = fs.root;
        let rest = rm_from(fs, recursive, force, files, k + 1);
        proof {
            assert(same_entries(root0, mid) && rm_run(
                mid,
                fs.root,
                cur,
                user,
                recursive,
                force,
                fvs,
                k as int + 1,
                rest@,
            ));
            assert(rm_run(root0, fs.root, cur, user, recursive, force, fvs, k as int, rest@));
        }
        return rest;
    }
    // probe == 4: nothing lives at the path, or the way there is broken
    if !force {
        let parent_missing: bool = match get_node(&fs.root, parent) {
            Option::Some(p) => match p {
                Node::Directory { .. } => false,
                _ => return cat3("rm: cannot remove '", arg, "': Not a directory"),
            },
            Option::None => true,
        };
        if parent_missing {
            return cat3("rm: cannot remove '", arg, "': No such file or directory");
        }
        return cat3("rm: cannot remove '", arg, "': No such file or directory");
    }
    let ghost mid = fs.root;
    let rest = rm_from(fs, recursive, force, files, k + 1);
    proof {
        assert(same_entries(root0, mid) && rm_run(
            mid,
            fs.root,
            cur,
            user,
            recursive,
            force,
            fvs,
            k as int + 1,
            rest@,
        ));
        assert(rm_run(root0, fs.root, cur, user, recursive, force, fvs, k as int, rest@));
    }
    rest
}

/// A dash word's first letter outside `al` makes `ls` refuse its flags.
pub open spec fn first_bad_ls_flag(s: Seq<char>, i: int) -> Option<char>
    decreases s.len() - i,
{
    if i < 1 || i >= s.len() {
        Option::None
    } else if s[i] == 'a' || s[i] == 'l' {
        first_bad_ls_flag(s, i + 1)
    } else {
        Option::Some(s[i])
    }
}

/// `ls`'s option scan: `-a` and `-l` in dash words, the last bare word
/// names the target.
pub open spec fn ls_parse(
    argvs: Seq<Seq<char>>,
    k: int,
    hidden: bool,
    long: bool,
    target: Option<Seq<char>>,
) -> (Option<char>, bool, bool, Option<Seq<char>>)
    decreases argvs.len() - k,
{
    if k < 0 || k >= argvs.len() {
        (Option::None, hidden, long, target)
    } else {
        let a = argvs[k];
        if a.len() > 0 && a[0] == '-' {
            match first_bad_ls_flag(a, 1) {
                Option::Some(c) => (Option::Some(c), hidden, long, target),
                Option::None => ls_parse(
                    argvs,
                    k + 1,
                    hidden || has_a_char(a),
                    long || has_l_char(a),
                    target,
                ),
            }
        } else {
            ls_parse(argvs, k + 1, hidden, long, Option::Some(a))
        }
    }
}

pub open spec fn has_a_char(a: Seq<char>) -> bool {
    exists|i: int| 1 <= i < a.len() && a[i] == 'a'
}

pub open spec fn has_l_char(a: Seq<char>) -> bool {
    exists|i: int| 1 <= i < a.len() && a[i] == 'l'
}

pub open spec fn hidden_name(nm: Seq<char>) -> bool {
    nm.len() > 0 && nm[0] == '.'
}

/// One long-format listing row.
pub open spec fn ls_long_line(nm: Seq<char>, nd: Node) -> Seq<char> {
    let kind: Seq<char> = match nd {
        Node::Directory { .. } => "d"@,
        Node::File { .. } => "-"@,
        Node::Symlink { .. } => "l"@,
    };
    let perms: int = match nd {
        Node::Directory { permissions, .. } => permissions as int,
        Node::File { permissions, .. } => permissions as int,
        Node::Symlink { .. } => 0o777,
    };
    let size: int = match nd {
        Node::Directory { .. } => 4096,
        Node::File { content, .. } => crate::strutil::encoded_len(content@),
        Node::Symlink { .. } => 0,
    };
    kind + oct_str(perms) + " 1 objz objz "@ + pad_left(dec_str(size), 8) + " Jan  1 12:00 "@
        + nm + "
"@
}

/// The long listing of a directory's children in stored order — sorted
/// ascending by name in any well-formed tree — hidden names filtered.
pub open spec fn ls_long(children: Seq<(String, Node)>, hidden: bool, i: int) -> Seq<char>
    decreases children.len() - i,
{
    if i < 0 || i >= children.len() {
        Seq::empty()
    } else {
        (if !hidden && hidden_name(children[i].0@) {
            Seq::<char>::empty()
        } else {
            ls_long_line(children[i].0@, children[i].1)
        }) + ls_long(children, hidden, i + 1)
    }
}

/// The short display names of a directory's children in stored order —
/// sorted ascending by name in any well-formed tree — hidden names
/// filtered: directories get `/`, symlinks get `@`.
pub open spec fn ls_short_names(children: Seq<(String, Node)>, hidden: bool, i: int) -> Seq<
    Seq<char>,
>
    decreases children.len() - i,
{
    if i < 0 || i >= children.len() {
        Seq::empty()
    } else {
        (if !hidden && hidden_name(children[i].0@) {
            Seq::<Seq<char>>::empty()
        } else {
            seq![
                match children[i].1 {
                    Node::Directory { .. } => children[i].0@ + "/"@,
                    Node::File { .. } => children[i].0@,
                    Node::Symlink { .. } => children[i].0@ + "@"@,
                },
            ]
        }) + ls_short_names(children, hidden, i + 1)
    }
}

/// What `ls` prints for a resolved target.
pub open spec fn ls_output(
    root: Node,
    path: Seq<Seq<char>>,
    hidden: bool,
    long: bool,
    target: Option<Seq<char>>,
) -> Seq<char> {
    match lookup(root, path) {
        Option::Some(n) => match n {
            Node::Directory { children, .. } => if long {
                ls_long(children@, hidden, 0)
            } else {
                join_sep(ls_short_names(children@, hidden, 0), "  "@)
            },
            Node::File { .. } => match target {
                Option::Some(t) => t,
                Option::None => "."@,
            },
            Node::Symlink { target: t, .. } => "-> "@ + t@,
        },
        Option::None => "ls: cannot access: No such file or directory"@,
    }
}

/// What `ls` prints for a root, working directory and argument list.
pub open spec fn ls_post(root: Node, cur: Seq<Seq<char>>, argvs: Seq<Seq<char>>, out: Seq<char>) -> bool {
    let parsed = ls_parse(argvs, 0, false, false, Option::None);
    match parsed.0 {
        Option::Some(c) => out == "ls: invalid option -- '"@ + seq![c] + "'"@,
        Option::None => ({
            let path = match parsed.3 {
                Option::Some(t) => normalize_model(t, cur),
                Option::None => cur,
            };
            out == ls_output(root, path, parsed.1, parsed.2, parsed.3)
        }),
    }
}

/// Lists a directory, a named target, or the working directory.
#[verifier::rlimit(60)]
pub fn ls(fs: &Filesystem, args: &[&str]) -> (r: String)
    requires
        fs.wf(),
    ensures
        ls_post(fs.root, views(fs.current_path@), views_s(args@), r@),
{
    let ghost argvs = views_s(args@);
    let mut show_hidden = false;
    let mut long_format = false;
    let mut target_path: Option<&str> = Option::None;
    let mut k: usize = 0;
    while k < args.len()
        invariant
            argvs == views_s(args@),
            k <= args@.len(),
            ls_parse(argvs, 0, false, false, Option::None) == ls_parse(
                argvs,
                k as int,
                show_hidden,
                long_format,
                match target_path {
                    Option::Some(t) => Option::Some(t@),
                    Option::None => Option::None,
                },
            ),
        decreases args@.len() - k,
    {
        let arg = args[k];
        let a = chars_of(arg);
        proof {
            assert(argvs[k as int] == args@[k as int]@);
        }
        if a.len() > 0 && a[0] == '-' {
            let mut j: usize = 1;
            let mut saw_a = false;
            let mut saw_l = false;
            while j < a.len()
                invariant
                    argvs == views_s(args@),
                    k < args@.len(),
                    a@ == args@[k as int]@,
                    a@.len() > 0 && a@[0] == '-',
                    ls_parse(argvs, 0, false, false, Option::None) == ls_parse(
                        argvs,
                        k as int,
                        show_hidden,
                        long_format,
                        match target_path {
                            Option::Some(t) => Option::Some(t@),
                            Option::None => Option::None,
                        },
                    ),
                    1 <= j <= a@.len(),
                    first_bad_ls_flag(a@, 1) == first_bad_ls_flag(a@, j as int),
                    saw_a == exists|i: int| 1 <= i < j && a@[i] == 'a',
                    saw_l == exists|i: int| 1 <= i < j && a@[i] == 'l',
                decreases a@.len() - j,
            {
                let c = a[j];
                if c == 'a' {
                    saw_a = true;
                } else if c == 'l' {
                    saw_l = true;
                } else {
                    let mut cs = String::new();
                    crate::strutil::push_char(&mut cs, c);
                    proof {
                        assert(cs@ =~= seq![a@[j as int]]);
                        assert(first_bad_ls_flag(a@, 1) == Option::Some(a@[j as int]));
                        assert(ls_parse(
                            argvs,
                            k as int,
                            show_hidden,
                            long_format,
                            match target_path {
                                Option::Some(t) => Option::Some(t@),
                                Option::None => Option::None,
                            },
                        ).0 == Option::Some(a@[j as int]));
                    }
                    return cat3("ls: invalid option -- '", cs.as_str(), "'");
                }
                j = j + 1;
            }
            proof {
                assert(first_bad_ls_flag(a@, a@.len() as int) is None);
            }
            show_hidden = show_hidden || saw_a;
            long_format = long_format || saw_l;
        } else {
            target_path = Option::Some(arg);
        }
        k = k + 1;
    }
    let path: Vec<String> = match target_path {
        Option::Some(t) => normalize_path(t, fs.current_path.as_slice()),
        Option::None => {
            let mut p: Vec<String> = Vec::new();
            let mut i: usize = 0;
            while i < fs.current_path.len()
                invariant
                    i <= fs.current_path@.len(),
                    views(p@) == views(fs.current_path@).subrange(0, i as int),
                decreases fs.current_path@.len() - i,
            {
                let ghost prev = p@;
                p.push(fs.current_path[i].clone());
                i = i + 1;
                proof {
                    prev.lemma_push_map_commute(|x: String| x@, p@.last());
                    assert(views(p@) =~= views(fs.current_path@).subrange(0, i as int));
                }
            }
            proof {
                assert(views(p@) =~= views(fs.current_path@));
            }
            p
        },
    };
    let ghost pathv = views(path@);
    match get_node(&fs.root, path.as_slice()) {
        Option::None => "ls: cannot access: No such file or directory".to_owned(),
        Option::Some(node) => match node {
            Node::Directory { children, .. } => {
                if long_format {
                    let mut out = String::new();
                    let mut i: usize = 0;
                    while i < children.len()
                        invariant
                            ls_long(children@, show_hidden, 0) == out@ + ls_long(
                                children@,
                                show_hidden,
                                i as int,
                            ),
                            i <= children@.len(),
                        decreases children@.len() - i,
                    {
                        let nm = &children[i].0;
                        let starts_dot = nm.as_str().unicode_len() > 0 && nm.as_str().get_char(0)
                            == '.';
                        if !show_hidden && starts_dot {
                            proof {
                                assert(ls_long(children@, show_hidden, i as int) == ls_long(
                                    children@,
                                    show_hidden,
                                    i as int + 1,
                                ));
                            }
                        } else {
                            let (kind, perms, size): (&str, u16, usize) = match &children[i].1 {
                                Node::Directory { permissions, .. } => ("d", *permissions, 4096),
                                Node::File { permissions, content, .. } => (
                                    "-",
                                    *permissions,
                                    content.as_str().len(),
                                ),
                                Node::Symlink { .. } => ("l", 0o777, 0),
                            };
                            let mut line = kind.to_owned();
                            line.append(u16_to_oct(perms).as_str());
                            line.append(" 1 objz objz ");
                            line.append(pad_left_str(u64_to_dec(size as u64).as_str(), 8).as_str());
                            line.append(" Jan  1 12:00 ");
                            line.append(nm.as_str());
                            line.append("\n");
                            proof {
                                assert(line@ == ls_long_line(
                                    children@[i as int].0@,
                                    children@[i as int].1,
                                ));
                            }
                            out.append(line.as_str());
                            proof {
                                assert(ls_long(children@, show_hidden, i as int) == ls_long_line(
                                    children@[i as int].0@,
                                    children@[i as int].1,
                                ) + ls_long(children@, show_hidden, i as int + 1));
                            }
                        }
                        i = i + 1;
                    }
                    proof {
                        assert(ls_long(children@, show_hidden, children@.len() as int)
                            == Seq::<char>::empty());
                        assert(out@ + Seq::<char>::empty() =~= out@);
                    }
                    out
                } else {
                    let mut names: Vec<String> = Vec::new();
                    let mut i: usize = 0;
                    while i < children.len()
                        invariant
                            ls_short_names(children@, show_hidden, 0) == views(names@)
                                + ls_short_names(children@, show_hidden, i as int),
                            i <= children@.len(),
                        decreases children@.len() - i,
                    {
                        let nm = &children[i].0;
                        let starts_dot = nm.as_str().unicode_len() > 0 && nm.as_str().get_char(0)
                            == '.';
                        if !show_hidden && starts_dot {
                            proof {
                                assert(ls_short_names(children@, show_hidden, i as int)
                                    == ls_short_names(children@, show_hidden, i as int + 1));
                            }
                        } else {
                            let display: String = match &children[i].1 {
                                Node::Directory { .. } => cat2(nm.as_str(), "/"),
                                Node::File { .. } => nm.clone(),
                                Node::Symlink { .. } => cat2(nm.as_str(), "@"),
                            };
                            let ghost prev = names@;
                            names.push(display);
                            proof {
                                prev.lemma_push_map_commute(|x: String| x@, names@.last());
                                assert(ls_short_names(children@, show_hidden, i as int)
                                    =~= seq![names@.last()@] + ls_short_names(
                                    children@,
                                    show_hidden,
                                    i as int + 1,
                                ));
                                assert(views(names@) =~= views(prev).push(names@.last()@));
                                assert(ls_short_names(children@, show_hidden, 0) =~= views(names@)
                                    + ls_short_names(children@, show_hidden, i as int + 1));
                            }
                        }
                        i = i + 1;
                    }
                    proof {
                        assert(ls_short_names(children@, show_hidden, children@.len() as int)
                            == Seq::<Seq<char>>::empty());
                        assert(views(names@) + Seq::<Seq<char>>::empty() =~= views(names@));
                    }
                    join_strings(&names, "  ")
                }
            },
            Node::File { .. } => match target_path {
                Option::Some(t) => t.to_owned(),
                Option::None => ".".to_owned(),
            },
            Node::Symlink { target, .. } => cat2("-> ", target.as_str()),
        },
    }
}

/// The rendered subtree below a directory node, each row showing the
/// branch prefix, a connector, and the entry's display name.
pub open spec fn tree_node(n: Node, prefix: Seq<char>) -> Seq<char>
    decreases n, 1int,
{
    match n {
        Node::Directory { children, .. } => tree_rows(n, 0, prefix),
        _ => Seq::empty(),
    }
}

pub open spec fn tree_entry_name(nm: Seq<char>, nd: Node) -> Seq<char> {
    match nd {
        Node::Directory { .. } => nm + "/"@,
        Node::File { .. } => nm,
        Node::Symlink { target, .. } => nm + " -> "@ + target@,
    }
}

/// The rows for a directory's children from index `i` on, in stored
/// order — sorted ascending by name in any well-formed tree.
pub open spec fn tree_rows(n: Node, i: int, prefix: Seq<char>) -> Seq<char>
    decreases n, 0int, n->Directory_children@.len() - i,
{
    if !(n is Directory) {
        Seq::empty()
    } else {
        let children = n->Directory_children@;
        if i < 0 || i >= children.len() {
            Seq::empty()
        } else {
            let last = i == children.len() - 1;
            let connector: Seq<char> = if last {
                "\u{2514}\u{2500}\u{2500} "@
            } else {
                "\u{251c}\u{2500}\u{2500} "@
            };
            let deeper: Seq<char> = if last {
                "    "@
            } else {
                "\u{2502}   "@
            };
            prefix + connector + tree_entry_name(children[i].0@, children[i].1) + "\n"@
                + tree_node(children[i].1, prefix + deeper) + tree_rows(n, i + 1, prefix)
        }
    }
}

/// What `tree` prints for a resolved start node.
pub open spec fn tree_output(root: Node, path: Seq<Seq<char>>) -> Seq<char> {
    match lookup(root, path) {
        Option::Some(n) => ({
            let name: Seq<char> = if path.len() == 0 {
                "/"@
            } else {
                path.last()
            };
            name + "\n"@ + tree_node(n, Seq::empty())
        }),
        Option::None => "tree: No such file or directory"@,
    }
}

/// What `tree` prints for a root, working directory and argument list.
pub open spec fn tree_post(root: Node, cur: Seq<Seq<char>>, argvs: Seq<Seq<char>>, out: Seq<char>) -> bool {
    let path = if argvs.len() == 0 {
        cur
    } else {
        normalize_model(argvs[0], cur)
    };
    out == tree_output(root, path)
}

/// Draws the directory tree below the target, or the working directory.
pub fn tree(fs: &Filesystem, args: &[&str]) -> (r: String)
    requires
        fs.wf(),
    ensures
        tree_post(fs.root, views(fs.current_path@), views_s(args@), r@),
{
    let path: Vec<String> = if args.len() == 0 {
        let mut p: Vec<String> = Vec::new();
        let mut i: usize = 0;
        while i < fs.current_path.len()
            invariant
                i <= fs.current_path@.len(),
                views(p@) == views(fs.current_path@).subrange(0, i as int),
            decreases fs.current_path@.len() - i,
        {
            let ghost prev = p@;
            p.push(fs.current_path[i].clone());
            i = i + 1;
            proof {
                prev.lemma_push_map_commute(|x: String| x@, p@.last());
                assert(views(p@) =~= views(fs.current_path@).subrange(0, i as int));
            }
        }
        proof {
            assert(views(p@) =~= views(fs.current_path@));
        }
        p
    } else {
        normalize_path(args[0], fs.current_path.as_slice())
    };
    match get_node(&fs.root, path.as_slice()) {
        Option::None => "tree: No such file or directory".to_owned(),
        Option::Some(node) => {
            let name: String = if path.len() == 0 {
                "/".to_owned()
            } else {
                path[path.len() - 1].clone()
            };
            proof {
                reveal_strlit("");
                assert(""@ =~= Seq::<char>::empty());
                if path@.len() > 0 {
                    assert(path@[path@.len() - 1]@ == views(path@).last());
                }
            }
            let body = tree_node_exec(node, "");
            let mut r = name;
            r.append("\n");
            r.append(body.as_str());
            r
        },
    }
}

/// Renders one node's subtree.
fn tree_node_exec(n: &Node, prefix: &str) -> (r: String)
    ensures
        r@ == tree_node(*n, prefix@),
    decreases *n, 1int,
{
    match n {
        Node::Directory { children, .. } => {
            let mut out = String::new();
            let mut i: usize = 0;
            while i < children.len()
                invariant
                    n is Directory,
                    children == n->Directory_children,
                    i <= children@.len(),
                    tree_rows(*n, 0, prefix@) == out@ + tree_rows(*n, i as int, prefix@),
                decreases children@.len() - i,
            {
                let last = i == children.len() - 1;
                let connector: &str = if last {
                    "\u{2514}\u{2500}\u{2500} "
                } else {
                    "\u{251c}\u{2500}\u{2500} "
                };
                let deeper: &str = if last {
                    "    "
                } else {
                    "\u{2502}   "
                };
                let display: String = match &children[i].1 {
                    Node::Directory { .. } => cat2(children[i].0.as_str(), "/"),
                    Node::File { .. } => children[i].0.clone(),
                    Node::Symlink { target, .. } => cat3(
                        children[i].0.as_str(),
                        " -> ",
                        target.as_str(),
                    ),
                };
                proof {
                    assert(display@ == tree_entry_name(
                        children@[i as int].0@,
                        children@[i as int].1,
                    ));
                }
                let new_prefix = cat2(prefix, deeper);
                let sub = tree_node_exec(&children[i].1, new_prefix.as_str());
                let mut row = prefix.to_owned();
                row.append(connector);
                row.append(display.as_str());
                row.append("\n");
                row.append(sub.as_str());
                out.append(row.as_str());
                proof {
                    assert(tree_rows(*n, i as int, prefix@) == prefix@ + connector@
                        + tree_entry_name(children@[i as int].0@, children@[i as int].1) + "\n"@
                        + tree_node(children@[i as int].1, prefix@ + deeper@) + tree_rows(
                        *n,
                        i as int + 1,
                        prefix@,
                    ));
                }
                i = i + 1;
            }
            proof {
                assert(tree_rows(*n, children@.len() as int, prefix@) == Seq::<char>::empty());
                assert(out@ + Seq::<char>::empty() =~= out@);
            }
            out
        },
        _ => String::new(),
    }
}

} // verus!






