//! Tab completion: command names for the first word, filesystem entries
//! for path arguments of the commands that take one.

use vstd::prelude::*;
use crate::fs::{autocomplete_entries, entry_names, lookup, normalize_model, normalize_path, Node};
use crate::strutil::{
    cat2, chars_of, split_ws, split_ws_vec, starts_with, starts_with_spec, str_eq, string_range,
    trim, trim_spec, views,
};

verus! {

/// What one completion request yields: nothing, exactly one completion, or
/// the whole list of candidates.
#[derive(Debug)]
pub enum CompletionResult {
    NoMatch,
    Single(String),
    Multiple(Vec<String>),
}

/// The candidates among `items` that begin with `partial`.
pub open spec fn filter_prefix(items: Seq<Seq<char>>, partial: Seq<char>) -> Seq<Seq<char>>
    decreases items.len(),
{
    if items.len() == 0 {
        Seq::empty()
    } else {
        (if starts_with_spec(items[0], partial) {
            seq![items[0]]
        } else {
            Seq::<Seq<char>>::empty()
        }) + filter_prefix(items.skip(1), partial)
    }
}

/// How a list of matches is answered.
pub open spec fn matches_result(r: CompletionResult, ms: Seq<Seq<char>>) -> bool {
    match r {
        CompletionResult::NoMatch => ms.len() == 0,
        CompletionResult::Single(s) => ms.len() == 1 && s@ == ms[0],
        CompletionResult::Multiple(v) => ms.len() >= 2 && views(v@) == ms,
    }
}

pub struct AutoComplete {
    pub commands: Vec<String>,
}

/// The built-in command names offered for completion, in their fixed
/// order.
pub open spec fn command_list() -> Seq<Seq<char>> {
    seq![
        "help"@, "clear"@, "history"@, "echo"@, "date"@, "uptime"@, "neofetch"@, "uname"@,
        "ls"@, "ll"@, "cd"@, "cat"@, "pwd"@, "tree"@, "mkdir"@, "touch"@, "rm"@, "ln"@,
        "sudo"@, "cowsay"@, "sl"@, "lolcat"@, "calc"@,
    ]
}

impl AutoComplete {
    pub fn new() -> (r: Self)
        ensures
            views(r.commands@) == command_list(),
    {
        let mut commands: Vec<String> = Vec::new();
        commands.push("help".to_owned());
        commands.push("clear".to_owned());
        commands.push("history".to_owned());
        commands.push("echo".to_owned());
        commands.push("date".to_owned());
        commands.push("uptime".to_owned());
        commands.push("neofetch".to_owned());
        commands.push("uname".to_owned());
        commands.push("ls".to_owned());
        commands.push("ll".to_owned());
        commands.push("cd".to_owned());
        commands.push("cat".to_owned());
        commands.push("pwd".to_owned());
        commands.push("tree".to_owned());
        commands.push("mkdir".to_owned());
        commands.push("touch".to_owned());
        commands.push("rm".to_owned());
        commands.push("ln".to_owned());
        commands.push("sudo".to_owned());
        commands.push("cowsay".to_owned());
        commands.push("sl".to_owned());
        commands.push("lolcat".to_owned());
        commands.push("calc".to_owned());
        proof {
            assert(views(commands@) =~= command_list());
        }
        Self { commands }
    }

    /// Completes either the command word or, for the filesystem commands,
    /// the path argument.
    pub fn complete(&self, input: &str, current_path: &[String], root: &Node) -> (r:
        CompletionResult)
        ensures
            ({
                let parts = split_ws(trim_spec(input@), 0);
                if trim_spec(input@).len() == 0 {
                    r is NoMatch
                } else if parts.len() == 1 {
                    matches_result(r, filter_prefix(views(self.commands@), parts[0]))
                } else if is_path_command(parts[0]) {
                    complete_path_post(
                        r,
                        parts.last(),
                        views(current_path@),
                        *root,
                        parts[0] == "cd"@,
                    )
                } else {
                    r is NoMatch
                }
            }),
    {
        let trimmed = trim(input);
        if trimmed.as_str().unicode_len() == 0 {
            return CompletionResult::NoMatch;
        }
        let parts = split_ws_vec(trimmed.as_str());
        proof {
            assert(views(parts@) == split_ws(trim_spec(input@), 0));
        }
        if parts.len() == 0 {
            // a non-empty trimmed string always has at least one word
            proof {
                let t = trim_spec(input@);
                crate::strutil::lemma_next_ws_bounds(input@, 0);
                crate::strutil::lemma_last_non_ws(input@, input@.len() as int - 1);
                let a = crate::strutil::next_non_ws(input@, 0);
                let b = crate::strutil::last_non_ws(input@, input@.len() as int - 1);
                assert(t.len() > 0);
                assert(a < input@.len());
                assert(!crate::linkmap::is_whitespace_char(input@[a]));
                assert(b >= a) by {
                    if b < a {
                        assert(crate::linkmap::is_whitespace_char(input@[a]));
                    }
                }
                assert(t[0] == input@[a]);
                assert(!crate::linkmap::is_whitespace_char(t[0]));
                crate::strutil::lemma_next_ws_bounds(t, 0);
                let e = crate::strutil::next_ws(t, 0);
                assert(e > 0) by {
                    if e == 0 {
                        assert(crate::linkmap::is_whitespace_char(t[0]));
                    }
                }
                assert(split_ws(t, 0).len() > 0);
            }
            return CompletionResult::NoMatch;
        }
        if parts.len() == 1 {
            return self.complete_command(parts[0].as_str());
        }
        let command = parts[0].as_str();
        proof {
            assert(views(parts@)[0] == parts@[0]@);
            assert(views(parts@).last() == parts@[parts@.len() - 1]@);
        }
        if str_eq(command, "cd") || str_eq(command, "ls") || str_eq(command, "cat") || str_eq(
            command,
            "tree",
        ) || str_eq(command, "rm") || str_eq(command, "mkdir") || str_eq(command, "touch") {
            self.complete_path(
                parts[parts.len() - 1].as_str(),
                current_path,
                str_eq(command, "cd"),
                root,
            )
        } else {
            CompletionResult::NoMatch
        }
    }

    /// Completes the command word against the built-in list.
    pub fn complete_command(&self, partial: &str) -> (r: CompletionResult)
        ensures
            matches_result(r, filter_prefix(views(self.commands@), partial@)),
    {
        let mut matches: Vec<String> = Vec::new();
        let mut i: usize = 0;
        proof {
            assert(views(self.commands@).skip(0) =~= views(self.commands@));
            assert(views(matches@) =~= Seq::<Seq<char>>::empty());
        }
        while i < self.commands.len()
            invariant
                i <= self.commands@.len(),
                filter_prefix(views(self.commands@), partial@) == views(matches@) + filter_prefix(
                    views(self.commands@).skip(i as int),
                    partial@,
                ),
            decreases self.commands@.len() - i,
        {
            proof {
                assert(views(self.commands@).skip(i as int)[0] == views(self.commands@)[i as int]);
                assert(views(self.commands@)[i as int] == self.commands@[i as int]@);
                assert(views(self.commands@).skip(i as int).skip(1) =~= views(
                    self.commands@,
                ).skip(i + 1));
            }
            if starts_with(self.commands[i].as_str(), partial) {
                let ghost prev = matches@;
                matches.push(self.commands[i].clone());
                proof {
                    prev.lemma_push_map_commute(|x: String| x@, matches@.last());
                    assert(views(matches@) =~= views(prev).push(self.commands@[i as int]@));
                    assert(filter_prefix(views(self.commands@), partial@) =~= views(matches@)
                        + filter_prefix(views(self.commands@).skip(i + 1), partial@));
                }
            } else {
                proof {
                    assert(filter_prefix(views(self.commands@), partial@) =~= views(matches@)
                        + filter_prefix(views(self.commands@).skip(i + 1), partial@));
                }
            }
            i = i + 1;
        }
        proof {
            assert(filter_prefix(views(self.commands@).skip(self.commands@.len() as int), partial@)
                == Seq::<Seq<char>>::empty());
            assert(views(matches@) + Seq::<Seq<char>>::empty() =~= views(matches@));
        }
        finish_matches(matches)
    }

    /// Completes a path argument from the directory the partial path
    /// denotes.
    pub fn complete_path(
        &self,
        partial: &str,
        current_path: &[String],
        dirs_only: bool,
        root: &Node,
    ) -> (r: CompletionResult)
        ensures
            complete_path_post(r, partial@, views(current_path@), *root, dirs_only),
    {
        let chars = chars_of(partial);
        let n = chars.len();
        // split at the last slash, keeping it with the directory part
        let mut cut: usize = 0;
        let mut j: usize = 0;
        while j < n
            invariant
                chars@ == partial@,
                n == partial@.len(),
                j <= n,
                cut <= j,
                cut == last_slash_cut(partial@, j as int),
            decreases n - j,
        {
            if chars[j] == '/' {
                cut = j + 1;
            }
            j = j + 1;
        }
        proof {
            lemma_last_slash_cut(partial@, n as int);
        }
        let dir_path = string_range(&chars, 0, cut);
        let file_prefix = string_range(&chars, cut, n);
        let search_path: Vec<String> = if cut == 0 {
            let mut p: Vec<String> = Vec::new();
            let mut i: usize = 0;
            while i < current_path.len()
                invariant
                    i <= current_path@.len(),
                    views(p@) == views(current_path@).subrange(0, i as int),
                decreases current_path@.len() - i,
            {
                let ghost prev = p@;
                p.push(current_path[i].clone());
                i = i + 1;
                proof {
                    prev.lemma_push_map_commute(|x: String| x@, p@.last());
                    assert(views(p@) =~= views(current_path@).subrange(0, i as int));
                }
            }
            proof {
                assert(views(p@) =~= views(current_path@));
            }
            p
        } else {
            normalize_path(dir_path.as_str(), current_path)
        };
        let entries = autocomplete_entries(root, search_path.as_slice(), dirs_only);
        let mut matches: Vec<String> = Vec::new();
        let mut i: usize = 0;
        let ghost evs = views(entries@);
        proof {
            assert(evs.skip(0) =~= evs);
            assert(views(matches@) =~= Seq::<Seq<char>>::empty());
            assert(prefixed_entries(evs, file_prefix@, dir_path@) =~= views(matches@)
                + prefixed_entries(evs.skip(0), file_prefix@, dir_path@));
        }
        while i < entries.len()
            invariant
                evs == views(entries@),
                i <= entries@.len(),
                cut <= partial@.len(),
                cut == last_slash_cut(partial@, partial@.len() as int),
                dir_path@ == partial@.subrange(0, cut as int),
                file_prefix@ == partial@.subrange(cut as int, partial@.len() as int),
                views(search_path@) == (if cut == 0 {
                    views(current_path@)
                } else {
                    normalize_model(partial@.subrange(0, cut as int), views(current_path@))
                }),
                evs == crate::fs::sort_entries(
                    match lookup(*root, views(search_path@)) {
                        Option::Some(m) => match m {
                            Node::Directory { children, .. } => entry_names(
                                children@,
                                dirs_only,
                            ),
                            _ => Seq::<Seq<char>>::empty(),
                        },
                        Option::None => Seq::<Seq<char>>::empty(),
                    },
                ),
                prefixed_entries(evs, file_prefix@, dir_path@) == views(matches@)
                    + prefixed_entries(evs.skip(i as int), file_prefix@, dir_path@),
            decreases entries@.len() - i,
        {
            proof {
                assert(evs.skip(i as int)[0] == evs[i as int]);
                assert(evs[i as int] == entries@[i as int]@);
                assert(evs.skip(i as int).skip(1) =~= evs.skip(i + 1));
            }
            if starts_with(entries[i].as_str(), file_prefix.as_str()) {
                let full: String = if cut == 0 {
                    entries[i].clone()
                } else {
                    cat2(dir_path.as_str(), entries[i].as_str())
                };
                proof {
                    if cut == 0 {
                        assert(dir_path@ =~= Seq::<char>::empty());
                        assert(dir_path@ + entries@[i as int]@ =~= entries@[i as int]@);
                    }
                }
                let ghost prev = matches@;
                matches.push(full);
                proof {
                    prev.lemma_push_map_commute(|x: String| x@, matches@.last());
                    assert(views(matches@) =~= views(prev).push(dir_path@ + entries@[i as int]@));
                    assert(prefixed_entries(evs, file_prefix@, dir_path@) =~= views(matches@)
                        + prefixed_entries(evs.skip(i + 1), file_prefix@, dir_path@));
                }
            } else {
                proof {
                    assert(prefixed_entries(evs, file_prefix@, dir_path@) =~= views(matches@)
                        + prefixed_entries(evs.skip(i + 1), file_prefix@, dir_path@));
                }
            }
            i = i + 1;
        }
        proof {
            assert(prefixed_entries(evs.skip(evs.len() as int), file_prefix@, dir_path@)
                == Seq::<Seq<char>>::empty());
            assert(views(matches@) + Seq::<Seq<char>>::empty() =~= views(matches@));
            assert(partial@.subrange(0, cut as int) == dir_path@);
            assert(partial@.subrange(cut as int, partial@.len() as int) == file_prefix@);
        }
        finish_matches(matches)
    }
}

/// Commands whose argument is a path.
pub open spec fn is_path_command(c: Seq<char>) -> bool {
    c == "cd"@ || c == "ls"@ || c == "cat"@ || c == "tree"@ || c == "rm"@ || c == "mkdir"@
        || c == "touch"@
}

/// One past the last slash of `s[..j]`, or 0 when there is none.
pub open spec fn last_slash_cut(s: Seq<char>, j: int) -> int
    decreases j,
{
    if j <= 0 {
        0
    } else if s[j - 1] == '/' {
        j
    } else {
        last_slash_cut(s, j - 1)
    }
}

pub proof fn lemma_last_slash_cut(s: Seq<char>, j: int)
    ensures
        0 <= last_slash_cut(s, j),
        last_slash_cut(s, j) <= j || j < 0,
    decreases j,
{
    if j > 0 && s[j - 1] != '/' {
        lemma_last_slash_cut(s, j - 1);
    }
}

/// The directory entries that begin with the typed prefix, each completed
/// back onto the typed directory part.
pub open spec fn prefixed_entries(
    entries: Seq<Seq<char>>,
    prefix: Seq<char>,
    dir: Seq<char>,
) -> Seq<Seq<char>>
    decreases entries.len(),
{
    if entries.len() == 0 {
        Seq::empty()
    } else {
        (if starts_with_spec(entries[0], prefix) {
            seq![dir + entries[0]]
        } else {
            Seq::<Seq<char>>::empty()
        }) + prefixed_entries(entries.skip(1), prefix, dir)
    }
}

/// What `complete_path` answers: the matching entries of the directory the
/// partial path's directory part names, relative to the working directory.
pub open spec fn complete_path_post(
    r: CompletionResult,
    partial: Seq<char>,
    cur: Seq<Seq<char>>,
    root: Node,
    dirs_only: bool,
) -> bool {
    let cut = last_slash_cut(partial, partial.len() as int);
    let dir = partial.subrange(0, cut);
    let prefix = partial.subrange(cut, partial.len() as int);
    let search = if cut == 0 {
        cur
    } else {
        normalize_model(dir, cur)
    };
    let entries = crate::fs::sort_entries(
        match lookup(root, search) {
            Option::Some(m) => match m {
                Node::Directory { children, .. } => entry_names(children@, dirs_only),
                _ => Seq::<Seq<char>>::empty(),
            },
            Option::None => Seq::<Seq<char>>::empty(),
        },
    );
    matches_result(r, prefixed_entries(entries, prefix, dir))
}

/// Turns a list of matches into the completion answer.
fn finish_matches(matches: Vec<String>) -> (r: CompletionResult)
    ensures
        matches_result(r, views(matches@)),
{
    if matches.len() == 0 {
        CompletionResult::NoMatch
    } else if matches.len() == 1 {
        let mut m = matches;
        match m.pop() {
            Option::Some(s) => CompletionResult::Single(s),
            Option::None => CompletionResult::NoMatch,
        }
    } else {
        CompletionResult::Multiple(matches)
    }
}

/// The longest shared prefix of all the strings, walked off the first one.
pub open spec fn common_prefix_len(strs: Seq<Seq<char>>, i: int) -> int
    decreases strs[0].len() - i,
{
    if strs.len() == 0 || i < 0 || i >= strs[0].len() {
        i
    } else if forall|j: int| 0 <= j < strs.len() ==> i < (#[trigger] strs[j]).len() && strs[j][i]
        == strs[0][i] {
        common_prefix_len(strs, i + 1)
    } else {
        i
    }
}

/// The common prefix of a completion list, if the strings share one.
pub fn find_common_prefix(strings: &[String]) -> (r: Option<String>)
    ensures
        strings@.len() == 0 ==> r is None,
        strings@.len() > 0 ==> {
            let n = common_prefix_len(views(strings@), 0);
            if n == 0 {
                r is None
            } else {
                r is Some && r->0@ == views(strings@)[0].subrange(0, n)
            }
        },
{
    if strings.len() == 0 {
        return Option::None;
    }
    let first = chars_of(strings[0].as_str());
    let ghost svs = views(strings@);
    let mut i: usize = 0;
    let mut stop = false;
    while i < first.len() && !stop
        invariant
            svs == views(strings@),
            strings@.len() > 0,
            first@ == svs[0],
            i <= first@.len(),
            common_prefix_len(svs, 0) == (if stop {
                i as int
            } else {
                common_prefix_len(svs, i as int)
            }),
        decreases first@.len() - i + (if stop {
            0int
        } else {
            1int
        }),
    {
        let c = first[i];
        let mut all = true;
        let mut j: usize = 0;
        while j < strings.len()
            invariant
                svs == views(strings@),
                strings@.len() > 0,
                first@ == svs[0],
                i < first@.len(),
                c == svs[0][i as int],
                j <= strings@.len(),
                all == forall|k: int| 0 <= k < j ==> i < (#[trigger] svs[k]).len()
                    && svs[k][i as int] == svs[0][i as int],
            decreases strings@.len() - j,
        {
            let s = strings[j].as_str();
            proof {
                assert(svs[j as int] == strings@[j as int]@);
            }
            if !(i < s.unicode_len() && s.get_char(i) == c) {
                all = false;
                j = strings.len();
            } else {
                proof {
                    assert(i < svs[j as int].len() && svs[j as int][i as int] == svs[0][i as int]);
                }
                j = j + 1;
            }
        }
        if all {
            i = i + 1;
        } else {
            stop = true;
        }
    }
    if i == 0 {
        Option::None
    } else {
        Option::Some(string_range(&first, 0, i))
    }
}

} // verus!
