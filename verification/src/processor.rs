//! The command dispatcher: one line of input becomes either immediate
//! output, a request for the host's clock, or an animated routine that the
//! host runs.

use vstd::prelude::*;
use crate::commands::{
    cat, cd, cowsay, echo, help, ln, lolcat, ls, mkdir, pwd, rm, sl, sudo, touch, tree, uname,
    Filesystem,
};
use crate::strutil::{
    cat2, dec_str, pad_left, pad_left_str, split_ws, split_ws_vec, str_eq, trim, trim_spec,
    u64_to_dec, views, views_s, starts_with_spec,
};

verus! {

/// A command's result: text to append, a decorative animation the host
/// must drive (with the arguments it was called with), an arithmetic
/// expression only the host's float evaluator can answer, or a value only
/// the host's clock or window can supply.
pub enum CommandResult {
    Output(String),
    Animated(Vec<String>),
    Calc(Vec<String>),
    Date,
    Uptime,
    Neofetch,
}

pub struct CommandHandler {
    pub history: Vec<String>,
}

impl CommandHandler {
    pub fn new() -> (r: Self)
        ensures
            r.history@ == Seq::<String>::empty(),
    {
        Self { history: Vec::new() }
    }

    /// The working directory, as the prompt shows it.
    pub fn get_working_dir(&self, fs: &Filesystem) -> (r: String)
        ensures
            r@ == crate::commands::pwd_spec(views(fs.current_path@)),
    {
        pwd(fs)
    }

    /// The numbered history listing.
    pub fn print_history(&self, args: &[&str]) -> (r: String)
        ensures
            self.history@.len() == 0 ==> r@ == "No commands in history yet."@,
            self.history@.len() > 0 ==> r@ == history_lines(views(self.history@), 0),
    {
        if self.history.len() == 0 {
            return "No commands in history yet.".to_owned();
        }
        let mut out = String::new();
        let mut i: usize = 0;
        while i < self.history.len()
            invariant
                i <= self.history@.len(),
                self.history@.len() > 0,
                history_lines(views(self.history@), 0) == out@ + history_lines(
                    views(self.history@),
                    i as int,
                ),
            decreases self.history@.len() - i,
        {
            proof {
                assert(views(self.history@)[i as int] == self.history@[i as int]@);
            }
            if i > 0 {
                out.append("\n");
            }
            out.append("  ");
            out.append(u64_to_dec((i + 1) as u64).as_str());
            out.append("  ");
            out.append(self.history[i].as_str());
            proof {
                assert(history_lines(views(self.history@), i as int) == (if i > 0 {
                    "\n"@
                } else {
                    Seq::<char>::empty()
                }) + "  "@ + dec_str(i as int + 1) + "  "@ + views(self.history@)[i as int]
                    + history_lines(views(self.history@), i as int + 1));
                assert(out@ + Seq::<char>::empty() =~= out@);
            }
            i = i + 1;
        }
        proof {
            assert(history_lines(views(self.history@), self.history@.len() as int)
                == Seq::<char>::empty());
            assert(out@ + Seq::<char>::empty() =~= out@);
        }
        out
    }

    /// Handles one line of input: blank lines do nothing, `cd` flags a
    /// directory change, the built-ins answer with text, and `sl`, `date`,
    /// `uptime` and `neofetch` defer to the host.  Every non-blank line is
    /// recorded.
    #[verifier::rlimit(100)]
    pub fn handle(&mut self, input: &str, fs: &mut Filesystem) -> (r: (CommandResult, bool))
        requires
            old(fs).wf(),
        ensures
            final(fs).wf(),
            final(fs).current_user == old(fs).current_user,
            ({
                let t = trim_spec(input@);
                let parts = split_ws(t, 0);
                if t.len() == 0 {
                    &&& final(self).history@ == old(self).history@
                    &&& *final(fs) == *old(fs)
                    &&& r.0 is Output
                    &&& r.0->Output_0@ == Seq::<char>::empty()
                    &&& r.1 == false
                } else {
                    &&& final(self).history@.len() == old(self).history@.len() + 1
                    &&& final(self).history@.last()@ == t
                    &&& final(self).history@.drop_last() == old(self).history@
                    &&& r.1 == (parts[0] == "cd"@)
                    &&& (parts[0] == "clear"@ ==> r.0 is Output && r.0->Output_0@
                        == "CLEAR_SCREEN"@ && *final(fs) == *old(fs))
                    &&& (parts[0] == "sl"@ ==> r.0 is Animated && views(r.0->Animated_0@)
                        == parts.skip(1))
                    &&& (parts[0] == "date"@ ==> r.0 is Date)
                    &&& (parts[0] == "uptime"@ ==> r.0 is Uptime)
                    &&& (parts[0] == "neofetch"@ ==> r.0 is Neofetch)
                    &&& (parts[0] == "calc"@ && parts.len() > 1 ==> r.0 is Calc && views(
                        r.0->Calc_0@,
                    ) == parts.skip(1))
                    &&& (parts[0] == "calc"@ && parts.len() == 1 ==> r.0 is Output
                        && r.0->Output_0@ == "Usage: calc <expression>\nExample: calc 2 + 2"@)
                    &&& (parts[0] == "pwd"@ ==> r.0 is Output && r.0->Output_0@
                        == crate::commands::pwd_spec(views(old(fs).current_path@)))
                    &&& (parts[0] == "sudo"@ ==> r.0 is Output && crate::commands::sudo_post(
                        parts.skip(1),
                        r.0->Output_0@,
                    ))
                    &&& (parts[0] == "echo"@ ==> r.0 is Output && crate::commands::echo_post(
                        parts.skip(1),
                        r.0->Output_0@,
                    ))
                    &&& (parts[0] == "uname"@ ==> r.0 is Output && crate::commands::uname_post(
                        parts.skip(1),
                        r.0->Output_0@,
                    ))
                    &&& (parts[0] == "help"@ ==> r.0 is Output && r.0->Output_0@
                        == crate::commands::help_text())
                    &&& (parts[0] == "cowsay"@ ==> r.0 is Output && crate::commands::cowsay_post(
                        parts.skip(1),
                        r.0->Output_0@,
                    ))
                    &&& (parts[0] == "lolcat"@ ==> r.0 is Output && crate::commands::lolcat_post(
                        parts.skip(1),
                        r.0->Output_0@,
                    ))
                    &&& (parts[0] == "history"@ ==> r.0 is Output && r.0->Output_0@
                        == history_lines(views(final(self).history@), 0))
                    &&& (parts[0] == "ls"@ ==> r.0 is Output && crate::commands::ls_post(
                        old(fs).root,
                        views(old(fs).current_path@),
                        parts.skip(1),
                        r.0->Output_0@,
                    ))
                    &&& (parts[0] == "ll"@ ==> r.0 is Output && crate::commands::ls_post(
                        old(fs).root,
                        views(old(fs).current_path@),
                        seq!["-la"@],
                        r.0->Output_0@,
                    ))
                    &&& (parts[0] == "cat"@ ==> r.0 is Output && crate::commands::cat_post(
                        old(fs).root,
                        views(old(fs).current_path@),
                        parts.skip(1),
                        r.0->Output_0@,
                    ))
                    &&& (parts[0] == "tree"@ ==> r.0 is Output && crate::commands::tree_post(
                        old(fs).root,
                        views(old(fs).current_path@),
                        parts.skip(1),
                        r.0->Output_0@,
                    ))
                    &&& (parts[0] == "cd"@ ==> r.0 is Output && final(fs).root == old(fs).root
                        && crate::commands::cd_post(
                        old(fs).root,
                        views(old(fs).current_path@),
                        views(final(fs).current_path@),
                        parts.skip(1),
                        r.0->Output_0@,
                    ))
                    &&& (parts[0] == "mkdir"@ ==> r.0 is Output && final(fs).current_path
                        == old(fs).current_path && crate::commands::mkdir_post(
                        old(fs).root,
                        final(fs).root,
                        views(old(fs).current_path@),
                        old(fs).current_user@,
                        parts.skip(1),
                        r.0->Output_0@,
                    ))
                    &&& (parts[0] == "touch"@ ==> r.0 is Output && final(fs).current_path
                        == old(fs).current_path && crate::commands::touch_post(
                        old(fs).root,
                        final(fs).root,
                        views(old(fs).current_path@),
                        old(fs).current_user@,
                        parts.skip(1),
                        r.0->Output_0@,
                    ))
                    &&& (parts[0] == "rm"@ ==> r.0 is Output && final(fs).current_path
                        == old(fs).current_path && crate::commands::rm_post(
                        old(fs).root,
                        final(fs).root,
                        views(old(fs).current_path@),
                        old(fs).current_user@,
                        parts.skip(1),
                        r.0->Output_0@,
                    ))
                    &&& (parts[0] == "ln"@ ==> r.0 is Output && final(fs).current_path
                        == old(fs).current_path && crate::commands::ln_spec(
                        old(fs).root,
                        final(fs).root,
                        views(old(fs).current_path@),
                        old(fs).current_user@,
                        parts.skip(1),
                        r.0->Output_0@,
                    ))
                    &&& (!fs_command(parts[0]) ==> *final(fs) == *old(fs))
                    &&& (known_command(parts[0]) || r.0 is Output && r.0->Output_0@
                        == "zsh: command not found: "@ + parts[0])
                }
            }),
    {
        let trimmed = trim(input);
        if trimmed.as_str().unicode_len() == 0 {
            return (CommandResult::Output(String::new()), false);
        }
        self.history.push(trimmed.clone());
        let parts = split_ws_vec(trimmed.as_str());
        proof {
            assert(views(parts@) == split_ws(trim_spec(input@), 0));
        }
        proof {
            let t = trim_spec(input@);
            crate::strutil::lemma_next_ws_bounds(input@, 0);
            crate::strutil::lemma_last_non_ws(input@, input@.len() as int - 1);
            let a = crate::strutil::next_non_ws(input@, 0);
            let b = crate::strutil::last_non_ws(input@, input@.len() as int - 1);
            assert(t.len() > 0);
            assert(a < input@.len());
            assert(!crate::linkmap::is_whitespace_char(input@[a]));
            assert(b >= a) by {
                if b < a {
                    assert(crate::linkmap::is_whitespace_char(input@[a]));
                }
            }
            assert(t[0] == input@[a]);
            assert(!crate::linkmap::is_whitespace_char(t[0]));
            crate::strutil::lemma_next_ws_bounds(t, 0);
            let e = crate::strutil::next_ws(t, 0);
            assert(e > 0) by {
                if e == 0 {
                    assert(crate::linkmap::is_whitespace_char(t[0]));
                }
            }
            assert(split_ws(t, 0).len() > 0);
            assert(parts@.len() > 0);
        }
        proof {
            assert(self.history@.drop_last() =~= old(self).history@);
        }
        let cmd = parts[0].as_str();
        proof {
            assert(views(parts@)[0] == parts@[0]@);
        }
        let mut args: Vec<&str> = Vec::new();
        let mut i: usize = 1;
        while i < parts.len()
            invariant
                *fs == *old(fs),
                old(fs).wf(),
                trim_spec(input@).len() > 0,
                views(parts@) == split_ws(trim_spec(input@), 0),
                parts@.len() > 0,
                cmd@ == views(parts@)[0],
                self.history@.len() == old(self).history@.len() + 1,
                self.history@.last()@ == trim_spec(input@),
                self.history@.drop_last() == old(self).history@,
                1 <= i <= parts@.len(),
                views_s(args@) == views(parts@).subrange(1, i as int),
            decreases parts@.len() - i,
        {
            let ghost prev = args@;
            args.push(parts[i].as_str());
            i = i + 1;
            proof {
                prev.lemma_push_map_commute(|x: &str| x@, args@.last());
                assert(views_s(args@) =~= views(parts@).subrange(1, i as int));
            }
        }
        proof {
            assert(views(parts@).subrange(1, parts@.len() as int) =~= views(parts@).skip(1));
        }
        let directory_changed = str_eq(cmd, "cd");
        let result: CommandResult = if str_eq(cmd, "clear") {
            CommandResult::Output("CLEAR_SCREEN".to_owned())
        } else if str_eq(cmd, "history") {
            CommandResult::Output(self.print_history(args.as_slice()))
        } else if str_eq(cmd, "echo") {
            CommandResult::Output(echo(args.as_slice()))
        } else if str_eq(cmd, "date") {
            CommandResult::Date
        } else if str_eq(cmd, "uptime") {
            CommandResult::Uptime
        } else if str_eq(cmd, "neofetch") {
            CommandResult::Neofetch
        } else if str_eq(cmd, "ls") {
            CommandResult::Output(ls(fs, args.as_slice()))
        } else if str_eq(cmd, "cd") {
            CommandResult::Output(cd(fs, args.as_slice()))
        } else if str_eq(cmd, "cat") {
            CommandResult::Output(cat(fs, args.as_slice()))
        } else if str_eq(cmd, "pwd") {
            CommandResult::Output(pwd(fs))
        } else if str_eq(cmd, "tree") {
            CommandResult::Output(tree(fs, args.as_slice()))
        } else if str_eq(cmd, "mkdir") {
            CommandResult::Output(mkdir(fs, args.as_slice()))
        } else if str_eq(cmd, "touch") {
            CommandResult::Output(touch(fs, args.as_slice()))
        } else if str_eq(cmd, "rm") {
            CommandResult::Output(rm(fs, args.as_slice()))
        } else if str_eq(cmd, "uname") {
            CommandResult::Output(uname(args.as_slice()))
        } else if str_eq(cmd, "ln") {
            CommandResult::Output(ln(fs, args.as_slice()))
        } else if str_eq(cmd, "ll") {
            let la: Vec<&str> = vec!["-la"];
            proof {
                assert(views_s(la@) =~= seq!["-la"@]);
            }
            CommandResult::Output(ls(fs, la.as_slice()))
        } else if str_eq(cmd, "help") {
            CommandResult::Output(help(args.as_slice()))
        } else if str_eq(cmd, "sudo") {
            CommandResult::Output(sudo(args.as_slice()))
        } else if str_eq(cmd, "cowsay") {
            CommandResult::Output(cowsay(args.as_slice()))
        } else if str_eq(cmd, "lolcat") {
            CommandResult::Output(lolcat(args.as_slice()))
        } else if str_eq(cmd, "sl") {
            let mut owned: Vec<String> = Vec::new();
            let mut k: usize = 0;
            while k < args.len()
                invariant
                    *fs == *old(fs),
                    old(fs).wf(),
                    trim_spec(input@).len() > 0,
                    views(parts@) == split_ws(trim_spec(input@), 0),
                    parts@.len() > 0,
                    cmd@ == views(parts@)[0],
                    cmd@ == "sl"@,
                    self.history@.len() == old(self).history@.len() + 1,
                    self.history@.last()@ == trim_spec(input@),
                    self.history@.drop_last() == old(self).history@,
                    views_s(args@) == views(parts@).skip(1),
                    k <= args@.len(),
                    views(owned@) == views_s(args@).subrange(0, k as int),
                decreases args@.len() - k,
            {
                let ghost prev = owned@;
                owned.push(args[k].to_owned());
                k = k + 1;
                proof {
                    prev.lemma_push_map_commute(|x: String| x@, owned@.last());
                    assert(views(owned@) =~= views_s(args@).subrange(0, k as int));
                }
            }
            proof {
                assert(views_s(args@).subrange(0, args@.len() as int) =~= views_s(args@));
            }
            CommandResult::Animated(owned)
        } else if str_eq(cmd, "calc") {
            if args.len() == 0 {
                CommandResult::Output(
                    "Usage: calc <expression>\nExample: calc 2 + 2".to_owned(),
                )
            } else {
                // floating-point arithmetic; the host evaluates it
                let mut owned: Vec<String> = Vec::new();
                let mut k: usize = 0;
                while k < args.len()
                    invariant
                        *fs == *old(fs),
                        old(fs).wf(),
                        trim_spec(input@).len() > 0,
                        views(parts@) == split_ws(trim_spec(input@), 0),
                        parts@.len() > 0,
                        cmd@ == views(parts@)[0],
                        cmd@ == "calc"@,
                        self.history@.len() == old(self).history@.len() + 1,
                        self.history@.last()@ == trim_spec(input@),
                        self.history@.drop_last() == old(self).history@,
                        views_s(args@) == views(parts@).skip(1),
                        k <= args@.len(),
                        views(owned@) == views_s(args@).subrange(0, k as int),
                    decreases args@.len() - k,
                {
                    let ghost prev = owned@;
                    owned.push(args[k].to_owned());
                    k = k + 1;
                    proof {
                        prev.lemma_push_map_commute(|x: String| x@, owned@.last());
                        assert(views(owned@) =~= views_s(args@).subrange(0, k as int));
                    }
                }
                proof {
                    assert(views_s(args@).subrange(0, args@.len() as int) =~= views_s(args@));
                }
                CommandResult::Calc(owned)
            }
        } else {
            CommandResult::Output(cat2("zsh: command not found: ", cmd))
        };
        proof {
            reveal_strlit("clear");
            reveal_strlit("history");
            reveal_strlit("echo");
            reveal_strlit("date");
            reveal_strlit("uptime");
            reveal_strlit("neofetch");
            reveal_strlit("ls");
            reveal_strlit("cd");
            reveal_strlit("cat");
            reveal_strlit("pwd");
            reveal_strlit("tree");
            reveal_strlit("mkdir");
            reveal_strlit("touch");
            reveal_strlit("rm");
            reveal_strlit("uname");
            reveal_strlit("ln");
            reveal_strlit("ll");
            reveal_strlit("help");
            reveal_strlit("sudo");
            reveal_strlit("cowsay");
            reveal_strlit("sl");
            reveal_strlit("lolcat");
            reveal_strlit("calc");
            assert("clear"@.len() == 5 && "clear"@[0] == 'c' && "clear"@[1] == 'l');
            assert("history"@.len() == 7 && "history"@[0] == 'h' && "history"@[1] == 'i');
            assert("echo"@.len() == 4 && "echo"@[0] == 'e' && "echo"@[1] == 'c');
            assert("date"@.len() == 4 && "date"@[0] == 'd' && "date"@[1] == 'a');
            assert("uptime"@.len() == 6 && "uptime"@[0] == 'u' && "uptime"@[1] == 'p');
            assert("neofetch"@.len() == 8 && "neofetch"@[0] == 'n' && "neofetch"@[1] == 'e');
            assert("ls"@.len() == 2 && "ls"@[0] == 'l' && "ls"@[1] == 's');
            assert("cd"@.len() == 2 && "cd"@[0] == 'c' && "cd"@[1] == 'd');
            assert("cat"@.len() == 3 && "cat"@[0] == 'c' && "cat"@[1] == 'a');
            assert("pwd"@.len() == 3 && "pwd"@[0] == 'p' && "pwd"@[1] == 'w');
            assert("tree"@.len() == 4 && "tree"@[0] == 't' && "tree"@[1] == 'r');
            assert("mkdir"@.len() == 5 && "mkdir"@[0] == 'm' && "mkdir"@[1] == 'k');
            assert("touch"@.len() == 5 && "touch"@[0] == 't' && "touch"@[1] == 'o');
            assert("rm"@.len() == 2 && "rm"@[0] == 'r' && "rm"@[1] == 'm');
            assert("uname"@.len() == 5 && "uname"@[0] == 'u' && "uname"@[1] == 'n');
            assert("ln"@.len() == 2 && "ln"@[0] == 'l' && "ln"@[1] == 'n');
            assert("ll"@.len() == 2 && "ll"@[0] == 'l' && "ll"@[1] == 'l');
            assert("help"@.len() == 4 && "help"@[0] == 'h' && "help"@[1] == 'e');
            assert("sudo"@.len() == 4 && "sudo"@[0] == 's' && "sudo"@[1] == 'u');
            assert("cowsay"@.len() == 6 && "cowsay"@[0] == 'c' && "cowsay"@[1] == 'o');
            assert("sl"@.len() == 2 && "sl"@[0] == 's' && "sl"@[1] == 'l');
            assert("lolcat"@.len() == 6 && "lolcat"@[0] == 'l' && "lolcat"@[1] == 'o');
            assert("calc"@.len() == 4 && "calc"@[0] == 'c' && "calc"@[1] == 'a');
            let t = trim_spec(input@);
            let ps = split_ws(t, 0);
            assert(t.len() > 0);
            assert(self.history@.len() == old(self).history@.len() + 1);
            assert(self.history@.last()@ == t);
            assert(self.history@.drop_last() == old(self).history@);
            assert(directory_changed == (ps[0] == "cd"@));
            assert(ps[0] == "clear"@ ==> result is Output && result->Output_0@
                == "CLEAR_SCREEN"@ && *fs == *old(fs));
            assert(ps[0] == "sl"@ ==> result is Animated && views(result->Animated_0@)
                == ps.skip(1));
            assert(ps[0] == "date"@ ==> result is Date);
            assert(ps[0] == "uptime"@ ==> result is Uptime);
            assert(ps[0] == "neofetch"@ ==> result is Neofetch);
            assert(ps[0] == "calc"@ && ps.len() > 1 ==> result is Calc && views(
                result->Calc_0@,
            ) == ps.skip(1)) by {
                if ps[0] == "calc"@ && ps.len() > 1 {
                    assert(views_s(args@) =~= ps.skip(1));
                    assert(args@.len() > 0);
                }
            }
            assert(ps[0] == "calc"@ && ps.len() == 1 ==> result is Output && result->Output_0@
                == "Usage: calc <expression>\nExample: calc 2 + 2"@) by {
                if ps[0] == "calc"@ && ps.len() == 1 {
                    assert(views_s(args@) =~= ps.skip(1));
                    assert(args@.len() == 0);
                }
            }
            assert(known_command(ps[0]) || result is Output && result->Output_0@
                == "zsh: command not found: "@ + ps[0]);
            assert(views_s(args@) == ps.skip(1));
            assert(ps[0] == "pwd"@ ==> result is Output && result->Output_0@
                == crate::commands::pwd_spec(views(old(fs).current_path@)));
            assert(ps[0] == "sudo"@ ==> result is Output && crate::commands::sudo_post(
                ps.skip(1),
                result->Output_0@,
            ));
            assert(ps[0] == "echo"@ ==> result is Output && crate::commands::echo_post(
                ps.skip(1),
                result->Output_0@,
            ));
            assert(ps[0] == "uname"@ ==> result is Output && crate::commands::uname_post(
                ps.skip(1),
                result->Output_0@,
            ));
            assert(ps[0] == "help"@ ==> result is Output && result->Output_0@
                == crate::commands::help_text());
            assert(ps[0] == "cowsay"@ ==> result is Output && crate::commands::cowsay_post(
                ps.skip(1),
                result->Output_0@,
            ));
            assert(ps[0] == "lolcat"@ ==> result is Output && crate::commands::lolcat_post(
                ps.skip(1),
                result->Output_0@,
            ));
            assert(ps[0] == "history"@ ==> result is Output && result->Output_0@
                == history_lines(views(self.history@), 0));
            assert(ps[0] == "ls"@ ==> result is Output && crate::commands::ls_post(
                old(fs).root,
                views(old(fs).current_path@),
                ps.skip(1),
                result->Output_0@,
            ));
            assert(ps[0] == "ll"@ ==> result is Output && crate::commands::ls_post(
                old(fs).root,
                views(old(fs).current_path@),
                seq!["-la"@],
                result->Output_0@,
            ));
            assert(ps[0] == "cat"@ ==> result is Output && crate::commands::cat_post(
                old(fs).root,
                views(old(fs).current_path@),
                ps.skip(1),
                result->Output_0@,
            ));
            assert(ps[0] == "tree"@ ==> result is Output && crate::commands::tree_post(
                old(fs).root,
                views(old(fs).current_path@),
                ps.skip(1),
                result->Output_0@,
            ));
            assert(ps[0] == "cd"@ ==> result is Output && fs.root == old(fs).root
                && crate::commands::cd_post(
                old(fs).root,
                views(old(fs).current_path@),
                views(fs.current_path@),
                ps.skip(1),
                result->Output_0@,
            ));
            assert(ps[0] == "mkdir"@ ==> result is Output && fs.current_path
                == old(fs).current_path && crate::commands::mkdir_post(
                old(fs).root,
                fs.root,
                views(old(fs).current_path@),
                old(fs).current_user@,
                ps.skip(1),
                result->Output_0@,
            ));
            assert(ps[0] == "touch"@ ==> result is Output && fs.current_path
                == old(fs).current_path && crate::commands::touch_post(
                old(fs).root,
                fs.root,
                views(old(fs).current_path@),
                old(fs).current_user@,
                ps.skip(1),
                result->Output_0@,
            ));
            assert(ps[0] == "rm"@ ==> result is Output && fs.current_path
                == old(fs).current_path && crate::commands::rm_post(
                old(fs).root,
                fs.root,
                views(old(fs).current_path@),
                old(fs).current_user@,
                ps.skip(1),
                result->Output_0@,
            ));
            assert(ps[0] == "ln"@ ==> result is Output && fs.current_path
                == old(fs).current_path && crate::commands::ln_spec(
                old(fs).root,
                fs.root,
                views(old(fs).current_path@),
                old(fs).current_user@,
                ps.skip(1),
                result->Output_0@,
            ));
            assert(!fs_command(ps[0]) ==> *fs == *old(fs));
            assert(fs.wf());
            assert(fs.current_user == old(fs).current_user);
        }
        (result, directory_changed)
    }
}

/// One history row: two spaces, the 1-based index, two spaces, the
/// command; rows after the first start on a new line.
pub open spec fn history_lines(entries: Seq<Seq<char>>, i: int) -> Seq<char>
    decreases entries.len() - i,
{
    if i < 0 || i >= entries.len() {
        Seq::empty()
    } else {
        (if i > 0 {
            "\n"@
        } else {
            Seq::<char>::empty()
        }) + "  "@ + dec_str(i + 1) + "  "@ + entries[i] + history_lines(entries, i + 1)
    }
}

/// The commands that may move or reshape the filesystem.
pub open spec fn fs_command(c: Seq<char>) -> bool {
    ||| c == "cd"@
    ||| c == "mkdir"@
    ||| c == "touch"@
    ||| c == "rm"@
    ||| c == "ln"@
}

/// The words the dispatcher knows.
pub open spec fn known_command(c: Seq<char>) -> bool {
    ||| c == "clear"@
    ||| c == "history"@
    ||| c == "echo"@
    ||| c == "date"@
    ||| c == "uptime"@
    ||| c == "neofetch"@
    ||| c == "ls"@
    ||| c == "cd"@
    ||| c == "cat"@
    ||| c == "pwd"@
    ||| c == "tree"@
    ||| c == "mkdir"@
    ||| c == "touch"@
    ||| c == "rm"@
    ||| c == "uname"@
    ||| c == "ln"@
    ||| c == "ll"@
    ||| c == "help"@
    ||| c == "sudo"@
    ||| c == "cowsay"@
    ||| c == "sl"@
    ||| c == "lolcat"@
    ||| c == "calc"@
}

/// Renders elapsed milliseconds the way `uptime` prints them.
pub fn format_uptime(elapsed_millis: u64) -> (r: String)
    ensures
        ({
            let total = elapsed_millis as int / 1000;
            r@ == pad_left(dec_str(total / 3600), 2).map_values(|c: char| zero_pad(c)) + "h "@
                + pad_left(dec_str((total % 3600) / 60), 2).map_values(|c: char| zero_pad(c))
                + "m "@ + pad_left(dec_str(total % 60), 2).map_values(|c: char| zero_pad(c))
                + "s"@
        }),
{
    let total = elapsed_millis / 1000;
    let hours = total / 3600;
    let minutes = (total % 3600) / 60;
    let seconds = total % 60;
    let mut r = zero_pad_dec(hours);
    r.append("h ");
    r.append(zero_pad_dec(minutes).as_str());
    r.append("m ");
    r.append(zero_pad_dec(seconds).as_str());
    r.append("s");
    r
}

/// Space padding becomes zero padding in clock fields.
pub open spec fn zero_pad(c: char) -> char {
    if c == ' ' {
        '0'
    } else {
        c
    }
}

/// A number padded to two digits with leading zeros.
fn zero_pad_dec(n: u64) -> (r: String)
    ensures
        r@ == pad_left(dec_str(n as int), 2).map_values(|c: char| zero_pad(c)),
{
    let d = u64_to_dec(n);
    let padded = pad_left_str(d.as_str(), 2);
    let chars = crate::strutil::chars_of(padded.as_str());
    let mut r = String::new();
    let mut i: usize = 0;
    while i < chars.len()
        invariant
            i <= chars@.len(),
            chars@ == pad_left(dec_str(n as int), 2),
            r@ == chars@.map_values(|c: char| zero_pad(c)).take(i as int),
        decreases chars@.len() - i,
    {
        let c = chars[i];
        crate::strutil::push_char(&mut r, if c == ' ' {
            '0'
        } else {
            c
        });
        i = i + 1;
        proof {
            assert(r@ =~= chars@.map_values(|c: char| zero_pad(c)).take(i as int));
        }
    }
    proof {
        assert(chars@.map_values(|c: char| zero_pad(c)).take(chars@.len() as int)
            =~= chars@.map_values(|c: char| zero_pad(c)));
    }
    r
}

/// The prompt's rendering of a working directory: the home directory
/// shows as `~`, paths below it as `~/...`, anything else verbatim.
pub open spec fn display_path_spec(cwd: Seq<char>) -> Seq<char> {
    if cwd == "/home/objz"@ {
        "~"@
    } else if crate::strutil::starts_with_spec(cwd, "/home/objz/"@) {
        "~"@ + cwd.skip("/home/objz"@.len() as int)
    } else {
        cwd
    }
}

/// The full prompt for a working directory.
pub fn get_current_prompt(base_prompt: &str, cwd: &str) -> (r: String)
    ensures
        r@ == base_prompt@ + ":"@ + display_path_spec(cwd@) + "$ "@,
{
    let display: String = if crate::strutil::str_eq(cwd, "/home/objz") {
        "~".to_owned()
    } else if crate::strutil::starts_with(cwd, "/home/objz/") {
        let chars = crate::strutil::chars_of(cwd);
        let home = "/home/objz";
        let cut = home.unicode_len();
        proof {
            reveal_strlit("/home/objz");
            reveal_strlit("/home/objz/");
            assert("/home/objz"@.len() == 10);
            assert("/home/objz/"@.len() == 11);
            assert(cwd@.len() >= 11);
            assert(cwd@ != "/home/objz"@);
        }
        let rest = crate::strutil::string_range(&chars, cut, chars.len());
        proof {
            assert(rest@ =~= cwd@.skip("/home/objz"@.len() as int));
        }
        cat2("~", rest.as_str())
    } else {
        proof {
            reveal_strlit("/home/objz");
            reveal_strlit("/home/objz/");
        }
        cwd.to_owned()
    };
    let mut r = base_prompt.to_owned();
    r.append(":");
    r.append(display.as_str());
    r.append("$ ");
    r
}

} // verus!

