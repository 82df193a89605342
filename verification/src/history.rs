//! The input history: a list of past commands and a browse cursor that the
//! arrow keys move.

use vstd::prelude::*;
use crate::strutil::{trim, trim_spec};

verus! {

#[derive(Clone)]
pub struct CommandHistory {
    pub history: Vec<String>,
    pub current_index: Option<usize>,
}

impl CommandHistory {
    pub open spec fn wf(&self) -> bool {
        match self.current_index {
            Option::Some(i) => i < self.history@.len(),
            Option::None => true,
        }
    }

    pub fn new() -> (r: Self)
        ensures
            r.wf(),
            r.history@ == Seq::<String>::empty(),
            r.current_index is None,
    {
        Self { history: Vec::new(), current_index: Option::None }
    }

    /// Records a command: blank input and immediate repeats are not kept.
    /// Browsing always restarts at the end.
    pub fn add(&mut self, command: String)
        requires
            old(self).wf(),
        ensures
            final(self).wf(),
            final(self).current_index is None,
            ({
                let kept = trim_spec(command@).len() > 0 && (old(self).history@.len() == 0
                    || old(self).history@.last()@ != command@);
                if kept {
                    final(self).history@ == old(self).history@.push(command)
                } else {
                    final(self).history@ == old(self).history@
                }
            }),
    {
        let t = trim(command.as_str());
        let keep = t.as_str().unicode_len() > 0 && (self.history.len() == 0 || !crate::strutil::str_eq(
            self.history[self.history.len() - 1].as_str(),
            command.as_str(),
        ));
        if keep {
            self.history.push(command);
        }
        self.current_index = Option::None;
    }

    /// Steps the cursor back in time and returns the command there; at the
    /// oldest entry it stays put.
    pub fn prev(&mut self) -> (r: Option<&String>)
        requires
            old(self).wf(),
        ensures
            final(self).wf(),
            final(self).history == old(self).history,
            old(self).history@.len() == 0 ==> {
                &&& r is None
                &&& final(self).current_index == old(self).current_index
            },
            old(self).history@.len() > 0 ==> {
                let ni: int = match old(self).current_index {
                    Option::None => old(self).history@.len() - 1,
                    Option::Some(i) => if i == 0 {
                        0
                    } else {
                        i - 1
                    },
                };
                &&& final(self).current_index == Option::Some(ni as usize)
                &&& r is Some
                &&& r->0 == old(self).history@[ni]
            },
    {
        if self.history.len() == 0 {
            return Option::None;
        }
        let new_index: usize = match self.current_index {
            Option::None => self.history.len() - 1,
            Option::Some(i) => {
                if i == 0 {
                    0
                } else {
                    i - 1
                }
            },
        };
        self.current_index = Option::Some(new_index);
        Option::Some(&self.history[new_index])
    }

    /// Steps the cursor forward in time; walking past the newest entry
    /// leaves browsing mode and returns nothing.
    pub fn next(&mut self) -> (r: Option<&String>)
        requires
            old(self).wf(),
        ensures
            final(self).wf(),
            final(self).history == old(self).history,
            match old(self).current_index {
                Option::None => r is None && final(self).current_index is None,
                Option::Some(i) => {
                    if i + 1 >= old(self).history@.len() {
                        r is None && final(self).current_index is None
                    } else {
                        &&& final(self).current_index == Option::Some((i + 1) as usize)
                        &&& r is Some
                        &&& r->0 == old(self).history@[i + 1]
                    }
                },
            },
    {
        match self.current_index {
            Option::None => Option::None,
            Option::Some(i) => {
                if i >= self.history.len() - 1 {
                    self.current_index = Option::None;
                    Option::None
                } else {
                    let new_index = i + 1;
                    self.current_index = Option::Some(new_index);
                    Option::Some(&self.history[new_index])
                }
            },
        }
    }
}

} // verus!
