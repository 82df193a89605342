//! The scrollback line buffer: an append-only, capacity-bounded log of
//! logical lines, the terminal's input/scroll state, and the windowing
//! queries the render pass reads.

use vstd::prelude::*;
use crate::wrap::{clamp_width, wrap, wrap_chunks};

verus! {

#[derive(Clone, Copy, PartialEq, Eq, Structural, Debug)]
pub enum LineType {
    Normal,
    Command,
    Output,
    Boot,
    Typing,
    _Prompt,
    _Error,
    System,
}

#[derive(Clone, Copy, PartialEq, Eq, Structural, Debug)]
pub enum InputMode {
    Normal,
    Processing,
    Disabled,
}

#[derive(Debug, Clone)]
pub struct BufferLine {
    pub content: String,
    pub line_type: LineType,
    pub color: Option<String>,
    pub wrapped_lines: Vec<String>,
}

/// Clones an optional string, exactly.
pub fn clone_opt_string(o: &Option<String>) -> (r: Option<String>)
    ensures
        r == *o,
{
    match o {
        Option::None => Option::None,
        Option::Some(s) => Option::Some(s.clone()),
    }
}

impl BufferLine {
    pub fn new(content: String, line_type: LineType, color: Option<String>) -> (r: Self)
        ensures
            r.content == content,
            r.line_type == line_type,
            r.color == color,
            r.wrapped_lines@ == Seq::<String>::empty(),
    {
        Self { content, line_type, color, wrapped_lines: Vec::new() }
    }

    /// Recomputes the cached reflow of this line for the given width.
    pub fn calc_wrapping(&mut self, max_width: usize)
        ensures
            final(self).content == old(self).content,
            final(self).line_type == old(self).line_type,
            final(self).color == old(self).color,
            final(self).wrapped_lines@.map_values(|x: String| x@) == wrap_chunks(
                old(self).content@,
                clamp_width(max_width as int),
            ),
    {
        self.wrapped_lines = wrap(self.content.as_str(), max_width);
    }

    /// How many physical rows this line occupies: its wrapped rows, or one
    /// row when it has never been wrapped.
    pub fn get_line_count(&self) -> (n: usize)
        ensures
            n as int == line_rows(*self),
    {
        if self.wrapped_lines.len() == 0 {
            1
        } else {
            self.wrapped_lines.len()
        }
    }

    /// Clones this line field by field, exactly.
    pub fn duplicate(&self) -> (r: Self)
        ensures
            line_like(r, *self),
    {
        let mut ws: Vec<String> = Vec::new();
        let mut i: usize = 0;
        while i < self.wrapped_lines.len()
            invariant
                i <= self.wrapped_lines@.len(),
                ws@ == self.wrapped_lines@.subrange(0, i as int),
            decreases self.wrapped_lines@.len() - i,
        {
            ws.push(self.wrapped_lines[i].clone());
            proof {
                assert(ws@ =~= self.wrapped_lines@.subrange(0, i + 1));
            }
            i = i + 1;
        }
        proof {
            assert(ws@ =~= self.wrapped_lines@);
        }
        Self {
            content: self.content.clone(),
            line_type: self.line_type,
            color: clone_opt_string(&self.color),
            wrapped_lines: ws,
        }
    }
}

/// Two buffered lines that agree in every observable field.
pub open spec fn line_like(a: BufferLine, b: BufferLine) -> bool {
    &&& a.content == b.content
    &&& a.line_type == b.line_type
    &&& a.color == b.color
    &&& a.wrapped_lines@ == b.wrapped_lines@
}

/// Physical rows of one buffered line.
pub open spec fn line_rows(l: BufferLine) -> int {
    if l.wrapped_lines@.len() == 0 {
        1
    } else {
        l.wrapped_lines@.len() as int
    }
}

/// Total physical rows of a sequence of buffered lines.
pub open spec fn total_rows(lines: Seq<BufferLine>) -> int
    decreases lines.len(),
{
    if lines.len() == 0 {
        0
    } else {
        total_rows(lines.drop_last()) + line_rows(lines.last())
    }
}

/// Splitting off the front line splits the row count.
pub proof fn lemma_total_rows_skip_one(lines: Seq<BufferLine>)
    requires
        lines.len() > 0,
    ensures
        total_rows(lines) == line_rows(lines[0]) + total_rows(lines.skip(1)),
    decreases lines.len(),
{
    if lines.len() == 1 {
        assert(lines.skip(1) =~= Seq::<BufferLine>::empty());
        assert(lines.drop_last() =~= Seq::<BufferLine>::empty());
    } else {
        lemma_total_rows_skip_one(lines.drop_last());
        assert(lines.skip(1).drop_last() =~= lines.drop_last().skip(1));
        assert(lines.skip(1).last() == lines.last());
        assert(lines.drop_last()[0] == lines[0]);
    }
}

/// Row count of a prefix, extended by one line.
pub proof fn lemma_total_rows_prefix(lines: Seq<BufferLine>, i: int)
    requires
        0 <= i < lines.len(),
    ensures
        total_rows(lines.subrange(0, i + 1)) == total_rows(lines.subrange(0, i)) + line_rows(
            lines[i],
        ),
{
    assert(lines.subrange(0, i + 1).drop_last() =~= lines.subrange(0, i));
    assert(lines.subrange(0, i + 1).last() == lines[i]);
}

/// The whole terminal input/scroll state, one record.
#[derive(Debug, Clone)]
pub struct TerminalState {
    pub current_input: String,
    pub cursor_position: usize,
    pub prompt: String,
    pub input_mode: InputMode,
    pub scroll_offset: usize,
}

impl Default for TerminalState {
    fn default() -> (r: Self)
        ensures
            r.current_input@ == Seq::<char>::empty(),
            r.cursor_position == 0,
            r.prompt@ == "objz@portfolio:~$ "@,
            r.input_mode == InputMode::Normal,
            r.scroll_offset == 0,
    {
        Self {
            current_input: String::new(),
            cursor_position: 0,
            prompt: "objz@portfolio:~$ ".to_owned(),
            input_mode: InputMode::Normal,
            scroll_offset: 0,
        }
    }
}

/// Clones the terminal state field by field, exactly.
pub fn clone_state(s: &TerminalState) -> (r: TerminalState)
    ensures
        r == *s,
{
    TerminalState {
        current_input: s.current_input.clone(),
        cursor_position: s.cursor_position,
        prompt: s.prompt.clone(),
        input_mode: s.input_mode,
        scroll_offset: s.scroll_offset,
    }
}

pub struct LineBuffer {
    pub buffer: Vec<BufferLine>,
    pub state: TerminalState,
    pub max_lines: usize,
    pub terminal_width: usize,
    pub terminal_height: usize,
    pub max_scroll_lines: usize,
}

/// What remains of `lines` under a retention cap: the most recent `cap`
/// entries, in order.
pub open spec fn retained<T>(lines: Seq<T>, cap: int) -> Seq<T> {
    if lines.len() <= cap {
        lines
    } else {
        lines.skip(lines.len() - cap)
    }
}

/// One append under a retention cap.
pub open spec fn evict_step<T>(lines: Seq<T>, l: T, cap: int) -> Seq<T> {
    retained(lines.push(l), cap)
}

/// A whole history of appends under a retention cap, replayed in order.
pub open spec fn replay_appends<T>(appends: Seq<T>, cap: int) -> Seq<T>
    decreases appends.len(),
{
    if appends.len() == 0 {
        Seq::empty()
    } else {
        evict_step(replay_appends(appends.drop_last(), cap), appends.last(), cap)
    }
}

/// Eviction invariant: after any number of appends the buffer holds exactly
/// the most recent `cap` appends, in their original order, and so never
/// exceeds the cap.
pub proof fn lemma_eviction<T>(appends: Seq<T>, cap: int)
    requires
        cap >= 1,
    ensures
        replay_appends(appends, cap) == retained(appends, cap),
        replay_appends(appends, cap).len() <= cap,
    decreases appends.len(),
{
    if appends.len() == 0 {
    } else {
        let pre = appends.drop_last();
        lemma_eviction(pre, cap);
        if pre.len() <= cap - 1 {
            assert(retained(pre, cap).push(appends.last()) =~= appends);
            assert(replay_appends(appends, cap) =~= retained(appends, cap));
        } else {
            let x = retained(pre, cap).push(appends.last());
            assert(x.len() == cap + 1);
            assert(replay_appends(appends, cap) == retained(x, cap));
            assert(retained(x, cap) =~= appends.skip(appends.len() - cap));
        }
    }
}

impl LineBuffer {
    /// Every line's cached reflow agrees with the current width, the cap is
    /// respected, and the cursor and scroll offsets are in range.  The size
    /// bounds are machine limits that keep row arithmetic inside `usize`.
    pub open spec fn wf(&self) -> bool {
        &&& 1 <= self.max_lines <= 1000000000
        &&& self.terminal_height <= 1000000000
        &&& self.max_scroll_lines <= 1000000000
        &&& self.buffer@.len() <= self.max_lines
        &&& self.state.cursor_position <= self.state.current_input@.len()
        &&& self.state.scroll_offset <= self.max_scroll_lines
        &&& forall|i: int| 0 <= i < self.buffer@.len() ==> (#[trigger] self.buffer@[i]).wrapped_lines@.map_values(
            |x: String| x@,
        ) == wrap_chunks(self.buffer@[i].content@, clamp_width(self.terminal_width as int))
    }

    pub fn new() -> (r: Self)
        ensures
            r.wf(),
            r.buffer@ == Seq::<BufferLine>::empty(),
            r.state.current_input@ == Seq::<char>::empty(),
            r.state.cursor_position == 0,
            r.state.prompt@ == "objz@portfolio:~$ "@,
            r.state.input_mode == InputMode::Normal,
            r.state.scroll_offset == 0,
            r.max_lines == 1000,
            r.terminal_width == 80,
            r.terminal_height == 25,
            r.max_scroll_lines == 100,
    {
        Self {
            buffer: Vec::new(),
            state: TerminalState::default(),
            max_lines: 1000,  // retention cap of the scrollback
            terminal_width: 80,
            terminal_height: 25,
            max_scroll_lines: 100,
        }
    }

    /// Appends one logical line: wraps it at the current width, pushes it to
    /// the back, and evicts from the front past the cap.  The scroll offset
    /// is untouched: a view pinned to the bottom (offset 0) stays pinned,
    /// and a reader mid-scroll is not yanked down; snapping back down is the
    /// explicit `reset_scroll`.
    pub fn add_line(&mut self, content: String, line_type: LineType, color: Option<String>)
        requires
            old(self).wf(),
        ensures
            final(self).wf(),
            final(self).state == old(self).state,
            final(self).max_lines == old(self).max_lines,
            final(self).terminal_width == old(self).terminal_width,
            final(self).terminal_height == old(self).terminal_height,
            final(self).max_scroll_lines == old(self).max_scroll_lines,
            final(self).buffer@.len() as int == if old(self).buffer@.len() < old(self).max_lines {
                old(self).buffer@.len() as int + 1
            } else {
                old(self).max_lines as int
            },
            final(self).buffer@.drop_last() == retained(
                old(self).buffer@,
                final(self).buffer@.len() - 1,
            ),
            final(self).buffer@.last().content == content,
            final(self).buffer@.last().line_type == line_type,
            final(self).buffer@.last().color == color,
            final(self).buffer@ == evict_step(
                old(self).buffer@,
                final(self).buffer@.last(),
                old(self).max_lines as int,
            ),
    {
        let mut line = BufferLine::new(content, line_type, color);
        line.calc_wrapping(self.terminal_width);
        self.buffer.push(line);
        let ghost pushed = self.buffer@;
        proof {
            assert(retained(pushed, pushed.len() as int) =~= pushed);
        }
        while self.buffer.len() > self.max_lines
            invariant
                old(self).wf(),
                self.state == old(self).state,
                self.max_lines == old(self).max_lines,
                self.terminal_width == old(self).terminal_width,
                self.terminal_height == old(self).terminal_height,
                self.max_scroll_lines == old(self).max_scroll_lines,
                pushed == old(self).buffer@.push(pushed.last()),
                pushed.len() >= self.buffer@.len() >= 1,
                self.buffer@ == retained(pushed, self.buffer@.len() as int),
                self.buffer@.len() >= self.max_lines || self.buffer@.len() == pushed.len(),
            decreases self.buffer@.len(),
        {
            self.buffer.remove(0);
            proof {
                assert(self.buffer@ =~= retained(pushed, self.buffer@.len() as int));
            }
        }
        proof {
            assert(self.buffer@.last() == pushed[pushed.len() - 1]);
            assert(self.buffer@ =~= evict_step(
                old(self).buffer@,
                self.buffer@.last(),
                self.max_lines as int,
            ));
            assert(self.buffer@.drop_last() =~= retained(
                old(self).buffer@,
                self.buffer@.len() - 1,
            ));
        }
    }

    /// Scrolls the view up by `lines` physical rows, clamped to the largest
    /// offset that still shows a full screen, itself capped.  Reports
    /// whether the offset changed.
    pub fn scroll_up(&mut self, lines: usize) -> (changed: bool)
        requires
            old(self).wf(),
        ensures
            final(self).wf(),
            final(self).buffer == old(self).buffer,
            final(self).max_lines == old(self).max_lines,
            final(self).terminal_width == old(self).terminal_width,
            final(self).terminal_height == old(self).terminal_height,
            final(self).max_scroll_lines == old(self).max_scroll_lines,
            final(self).state.current_input == old(self).state.current_input,
            final(self).state.cursor_position == old(self).state.cursor_position,
            final(self).state.prompt == old(self).state.prompt,
            final(self).state.input_mode == old(self).state.input_mode,
            final(self).state.scroll_offset as int == min_int(
                old(self).state.scroll_offset + lines,
                old(self).max_scroll_offset(),
            ),
            changed == (final(self).state.scroll_offset != old(self).state.scroll_offset),
    {
        let max_off = self.compute_max_scroll_offset();
        let cur = self.state.scroll_offset;
        let new_off: usize = if cur >= max_off {
            max_off
        } else if lines < max_off - cur {
            cur + lines
        } else {
            max_off
        };
        let changed = new_off != cur;
        self.state.scroll_offset = new_off;
        changed
    }

    /// Scrolls the view down by `lines` physical rows, saturating at zero.
    /// Reports whether the offset changed.
    pub fn scroll_down(&mut self, lines: usize) -> (changed: bool)
        requires
            old(self).wf(),
        ensures
            final(self).wf(),
            final(self).buffer == old(self).buffer,
            final(self).max_lines == old(self).max_lines,
            final(self).terminal_width == old(self).terminal_width,
            final(self).terminal_height == old(self).terminal_height,
            final(self).max_scroll_lines == old(self).max_scroll_lines,
            final(self).state.current_input == old(self).state.current_input,
            final(self).state.cursor_position == old(self).state.cursor_position,
            final(self).state.prompt == old(self).state.prompt,
            final(self).state.input_mode == old(self).state.input_mode,
            final(self).state.scroll_offset as int == max_int(
                old(self).state.scroll_offset - lines,
                0,
            ),
            changed == (final(self).state.scroll_offset != old(self).state.scroll_offset),
    {
        let cur = self.state.scroll_offset;
        let new_off: usize = if lines >= cur {
            0
        } else {
            cur - lines
        };
        let changed = new_off != cur;
        self.state.scroll_offset = new_off;
        changed
    }

    /// The largest admissible scroll offset: the rows that do not fit on
    /// the screen, capped at the scroll limit, never negative.
    pub open spec fn max_scroll_offset(&self) -> int {
        if total_rows(self.buffer@) > self.terminal_height {
            min_int(total_rows(self.buffer@) - self.terminal_height, self.max_scroll_lines as int)
        } else {
            0
        }
    }

    /// Total physical rows currently buffered, saturating at `usize::MAX`.
    pub fn total_physical_rows(&self) -> (t: usize)
        ensures
            t as int == min_int(total_rows(self.buffer@), usize::MAX as int),
    {
        let mut t: usize = 0;
        let mut i: usize = 0;
        proof {
            assert(self.buffer@.subrange(0, 0) =~= Seq::<BufferLine>::empty());
        }
        while i < self.buffer.len()
            invariant
                i <= self.buffer@.len(),
                t as int == min_int(total_rows(self.buffer@.subrange(0, i as int)), usize::MAX as int),
            decreases self.buffer@.len() - i,
        {
            let rows = self.buffer[i].get_line_count();
            proof {
                lemma_total_rows_prefix(self.buffer@, i as int);
            }
            if rows <= usize::MAX - t {
                t = t + rows;
            } else {
                t = usize::MAX;
            }
            i = i + 1;
        }
        proof {
            assert(self.buffer@.subrange(0, self.buffer@.len() as int) =~= self.buffer@);
        }
        t
    }

    fn compute_max_scroll_offset(&self) -> (m: usize)
        requires
            self.wf(),
        ensures
            m as int == self.max_scroll_offset(),
    {
        let total = self.total_physical_rows();
        if total > self.terminal_height {
            let excess = total - self.terminal_height;
            if excess < self.max_scroll_lines {
                excess
            } else {
                self.max_scroll_lines
            }
        } else {
            0
        }
    }

    /// Snaps the view back to the bottom.
    pub fn reset_scroll(&mut self)
        requires
            old(self).wf(),
        ensures
            final(self).wf(),
            *final(self) == (LineBuffer {
                state: (TerminalState { scroll_offset: 0, ..old(self).state }),
                ..*old(self)
            }),
    {
        self.state.scroll_offset = 0;
    }

    /// Whether the view is pinned to the bottom, and so follows new output.
    pub fn should_auto_scroll(&self) -> (r: bool)
        ensures
            r == (self.state.scroll_offset == 0),
    {
        self.state.scroll_offset == 0
    }

    /// The explicit auto-scroll call: re-pins the view to the bottom, so
    /// output appended during a scrolled review becomes visible again.
    pub fn auto_scroll_bottom(&mut self)
        requires
            old(self).wf(),
        ensures
            final(self).wf(),
            *final(self) == (LineBuffer {
                state: (TerminalState { scroll_offset: 0, ..old(self).state }),
                ..*old(self)
            }),
    {
        self.reset_scroll();
    }

    pub fn set_prompt(&mut self, prompt: String)
        requires
            old(self).wf(),
        ensures
            final(self).wf(),
            *final(self) == (LineBuffer {
                state: (TerminalState { prompt: prompt, ..old(self).state }),
                ..*old(self)
            }),
    {
        self.state.prompt = prompt;
    }

    pub fn set_input_mode(&mut self, mode: InputMode)
        requires
            old(self).wf(),
        ensures
            final(self).wf(),
            *final(self) == (LineBuffer {
                state: (TerminalState { input_mode: mode, ..old(self).state }),
                ..*old(self)
            }),
    {
        self.state.input_mode = mode;
    }

    /// Records the edited input line; the cursor is clamped to the input's
    /// codepoint count, never rejected.
    pub fn update_input(&mut self, input: String, cursor_pos: usize)
        requires
            old(self).wf(),
        ensures
            final(self).wf(),
            final(self).buffer == old(self).buffer,
            final(self).max_lines == old(self).max_lines,
            final(self).terminal_width == old(self).terminal_width,
            final(self).terminal_height == old(self).terminal_height,
            final(self).max_scroll_lines == old(self).max_scroll_lines,
            final(self).state.prompt == old(self).state.prompt,
            final(self).state.input_mode == old(self).state.input_mode,
            final(self).state.scroll_offset == old(self).state.scroll_offset,
            final(self).state.current_input == input,
            final(self).state.cursor_position as int == min_int(cursor_pos as int, input@.len() as int),
    {
        let n = input.as_str().unicode_len();
        self.state.current_input = input;
        self.state.cursor_position = if cursor_pos < n {
            cursor_pos
        } else {
            n
        };
    }

    /// Drops every buffered line and snaps the view to the bottom.
    pub fn clear(&mut self)
        requires
            old(self).wf(),
        ensures
            final(self).wf(),
            final(self).buffer@ == Seq::<BufferLine>::empty(),
            final(self).state == (TerminalState { scroll_offset: 0, ..old(self).state }),
            final(self).max_lines == old(self).max_lines,
            final(self).terminal_width == old(self).terminal_width,
            final(self).terminal_height == old(self).terminal_height,
            final(self).max_scroll_lines == old(self).max_scroll_lines,
    {
        self.buffer.clear();
        self.state.scroll_offset = 0;
    }

    /// A copy of the terminal state record.
    pub fn get_terminal_state(&self) -> (r: TerminalState)
        ensures
            r == self.state,
    {
        clone_state(&self.state)
    }
}

impl LineBuffer {
    /// The buffer after `set_viewport_width`-style rewrapping: same lines,
    /// same state, every cached reflow recomputed at the new width.
    pub open spec fn rewrapped(oldb: LineBuffer, newb: LineBuffer, width: usize, height: usize) -> bool {
        &&& newb.buffer@.len() == oldb.buffer@.len()
        &&& forall|i: int| 0 <= i < newb.buffer@.len() ==> {
            &&& (#[trigger] newb.buffer@[i]).content == oldb.buffer@[i].content
            &&& newb.buffer@[i].line_type == oldb.buffer@[i].line_type
            &&& newb.buffer@[i].color == oldb.buffer@[i].color
            &&& newb.buffer@[i].wrapped_lines@.map_values(|x: String| x@) == wrap_chunks(
                oldb.buffer@[i].content@,
                clamp_width(width as int),
            )
        }
        &&& newb.state == oldb.state
        &&& newb.max_lines == oldb.max_lines
        &&& newb.max_scroll_lines == oldb.max_scroll_lines
        &&& newb.terminal_width == width
        &&& newb.terminal_height == height
    }

    /// Stores a new viewport size and re-wraps every buffered line at the
    /// new width.
    pub fn set_dimensions(&mut self, width: usize, height: usize)
        requires
            old(self).wf(),
            height <= 1000000000,
        ensures
            final(self).wf(),
            LineBuffer::rewrapped(*old(self), *final(self), width, height),
    {
        let mut nb: Vec<BufferLine> = Vec::new();
        let mut i: usize = 0;
        while i < self.buffer.len()
            invariant
                old(self).wf(),
                *self == *old(self),
                i <= self.buffer@.len(),
                nb@.len() == i,
                forall|j: int| 0 <= j < i ==> {
                    &&& (#[trigger] nb@[j]).content == self.buffer@[j].content
                    &&& nb@[j].line_type == self.buffer@[j].line_type
                    &&& nb@[j].color == self.buffer@[j].color
                    &&& nb@[j].wrapped_lines@.map_values(|x: String| x@) == wrap_chunks(
                        self.buffer@[j].content@,
                        clamp_width(width as int),
                    )
                },
            decreases self.buffer@.len() - i,
        {
            let mut line = self.buffer[i].duplicate();
            line.calc_wrapping(width);
            nb.push(line);
            i = i + 1;
        }
        self.buffer = nb;
        self.terminal_width = width;
        self.terminal_height = height;
    }

    /// The render pass's one logical read path, row-exact per the visible
    /// window law: the trailing logical lines covering exactly
    /// `min(max_visual_lines + scroll_offset, total rows)` physical rows,
    /// oldest first.  The boundary line's rows scrolled out above the
    /// window are trimmed from its cached reflow, so the returned rows sum
    /// exactly to the window; kinds and colors ride along for the
    /// renderer, and `visible_window` returns the same rows as bare text.
    #[verifier::rlimit(100)]
    pub fn get_visible_lines(&self, max_visual_lines: usize) -> (r: Vec<BufferLine>)
        requires
            self.wf(),
            max_visual_lines <= 1000000000,
        ensures
            ({
                let budget = max_visual_lines + self.state.scroll_offset;
                let total = total_rows(self.buffer@);
                let b = min_int(budget as int, total);
                let count = cover_take(self.buffer@, budget as int);
                &&& r@.len() == count
                &&& total_rows(r@) == b
                &&& all_rows(r@) == all_rows(self.buffer@).skip(total - b)
                &&& forall|j: int| 1 <= j < count ==> line_like(
                    #[trigger] r@[j],
                    self.buffer@[self.buffer@.len() - count + j],
                )
                &&& count > 0 ==> ({
                    let first = self.buffer@[self.buffer@.len() - count];
                    &&& r@[0].content == first.content
                    &&& r@[0].line_type == first.line_type
                    &&& r@[0].color == first.color
                    &&& r@[0].wrapped_lines@ == first.wrapped_lines@.skip(
                        total_rows(self.buffer@.skip(self.buffer@.len() - count)) - b,
                    )
                })
            }),
    {
        let budget: usize = max_visual_lines + self.state.scroll_offset;
        let ghost full = self.buffer@;
        let n = self.buffer.len();
        // walk backward until the budget is covered or the buffer runs out
        let mut count: usize = 0;
        let mut rem: usize = budget;
        let mut cut: usize = 0;
        proof {
            assert(full.skip(n as int) =~= Seq::<BufferLine>::empty());
            assert(full.take(n as int) =~= full);
        }
        while count < n && rem > 0
            invariant
                self.wf(),
                full == self.buffer@,
                n == full.len(),
                count <= n,
                rem <= budget <= 2000000000,
                rem as int == max_int(budget - total_rows(full.skip(n - count)), 0),
                cover_take(full, budget as int) == count + cover_take(
                    full.take(n - count),
                    rem as int,
                ),
                rem > 0 ==> cut == 0,
                rem == 0 ==> cut as int == total_rows(full.skip(n - count)) - budget,
            decreases n - count,
        {
            let m = n - count;
            let rows = self.buffer[m - 1].get_line_count();
            proof {
                assert(full.take(m as int).last() == full[m - 1]);
                assert(full.take(m as int).drop_last() =~= full.take(m - 1));
                lemma_total_rows_skip_one(full.skip(m - 1));
                assert(full.skip(m - 1)[0] == full[m - 1]);
                assert(full.skip(m - 1).skip(1) =~= full.skip(m as int));
            }
            proof {
                assert(cover_take(full.take(m as int), rem as int) == 1 + cover_take(
                    full.take(m - 1),
                    rem - rows,
                ));
            }
            if rows >= rem {
                proof {
                    assert(cover_take(full.take(m - 1), rem as int - rows as int) == 0);
                    assert(cover_take(full.take(m - 1), 0) == 0);
                }
                cut = rows - rem;
                rem = 0;
            } else {
                rem = rem - rows;
            }
            count = count + 1;
        }
        proof {
            assert(cover_take(full.take(n - count), rem as int) == 0);
            assert(cover_take(full, budget as int) == count);
            lemma_all_rows_len(full);
            lemma_all_rows_len(full.skip(n - count));
        }
        let ghost total = total_rows(full);
        let ghost b = min_int(budget as int, total);
        proof {
            lemma_all_rows_split(full, n - count);
            lemma_all_rows_len(full.take(n - count));
            if rem > 0 {
                // the whole buffer fits: every row is shown
                assert(count == n);
                assert(full.skip(0) =~= full);
                assert(b == total);
            } else {
                assert(b == budget);
            }
            assert(cut as int == total_rows(full.skip(n - count)) - b);
        }
        let mut out: Vec<BufferLine> = Vec::new();
        if count == 0 {
            proof {
                assert(all_rows(out@) =~= all_rows(full).skip(total - b));
            }
            return out;
        }
        let firstidx = n - count;
        let ghost first = full[firstidx as int];
        proof {
            // the boundary line still shows at least one row
            lemma_cover_take(full, budget as int);
            assert(total_rows(full.skip(firstidx + 1)) < budget);
            lemma_total_rows_skip_one(full.skip(firstidx as int));
            assert(full.skip(firstidx as int)[0] == first);
            assert(full.skip(firstidx as int).skip(1) =~= full.skip(firstidx + 1));
            crate::wrap::lemma_wrap_bounds(first.content@, clamp_width(self.terminal_width as int));
            assert(self.buffer@[firstidx as int] == first);
            assert(first.wrapped_lines@.map_values(|x: String| x@) == wrap_chunks(
                first.content@,
                clamp_width(self.terminal_width as int),
            ));
            assert(first.wrapped_lines@.map_values(|x: String| x@).len()
                == first.wrapped_lines@.len());
            assert(first.wrapped_lines@.len() >= 1);
            assert(line_rows(first) == first.wrapped_lines@.len());
            assert(cut < first.wrapped_lines@.len());
        }
        // the boundary line, its hidden leading rows trimmed
        let fl = &self.buffer[firstidx];
        let mut ws: Vec<String> = Vec::new();
        let mut j: usize = cut;
        while j < fl.wrapped_lines.len()
            invariant
                fl == self.buffer@[firstidx as int],
                first == full[firstidx as int],
                full == self.buffer@,
                cut <= j <= fl.wrapped_lines@.len(),
                ws@ == first.wrapped_lines@.subrange(cut as int, j as int),
            decreases fl.wrapped_lines@.len() - j,
        {
            ws.push(fl.wrapped_lines[j].clone());
            j = j + 1;
            proof {
                assert(ws@ =~= first.wrapped_lines@.subrange(cut as int, j as int));
            }
        }
        proof {
            assert(ws@ =~= first.wrapped_lines@.skip(cut as int));
        }
        out.push(
            BufferLine {
                content: fl.content.clone(),
                line_type: fl.line_type,
                color: clone_opt_string(&fl.color),
                wrapped_lines: ws,
            },
        );
        let ghost trimmed = out@[0];
        let mut i2: usize = firstidx + 1;
        while i2 < n
            invariant
                full == self.buffer@,
                n == full.len(),
                firstidx + 1 <= i2 <= n,
                out@.len() == i2 - firstidx,
                out@[0] == trimmed,
                forall|k: int| 1 <= k < out@.len() ==> line_like(
                    #[trigger] out@[k],
                    full[firstidx + k],
                ),
            decreases n - i2,
        {
            out.push(self.buffer[i2].duplicate());
            i2 = i2 + 1;
        }
        proof {
            // the returned rows are exactly the window's trailing slice
            let s = all_rows(full.skip(firstidx as int));
            lemma_all_rows_split(full.skip(firstidx as int), 1);
            assert(full.skip(firstidx as int).take(1) =~= seq![first]);
            assert(seq![first].drop_last() =~= Seq::<BufferLine>::empty());
            assert(seq![first].last() == first);
            assert(all_rows(Seq::<BufferLine>::empty()) == Seq::<Seq<char>>::empty());
            assert(all_rows(seq![first]) == all_rows(seq![first].drop_last()) + rows_of(first));
            assert(Seq::<Seq<char>>::empty() + rows_of(first) =~= rows_of(first));
            assert(all_rows(seq![first]) =~= rows_of(first));
            assert(full.skip(firstidx as int).skip(1) =~= full.skip(firstidx + 1));
            assert(s == rows_of(first) + all_rows(full.skip(firstidx + 1)));
            lemma_all_rows_split(out@, 1);
            assert(out@.take(1) =~= seq![trimmed]);
            assert(seq![trimmed].drop_last() =~= Seq::<BufferLine>::empty());
            assert(seq![trimmed].last() == trimmed);
            assert(all_rows(seq![trimmed]) == all_rows(seq![trimmed].drop_last()) + rows_of(
                trimmed,
            ));
            assert(Seq::<Seq<char>>::empty() + rows_of(trimmed) =~= rows_of(trimmed));
            assert(all_rows(seq![trimmed]) =~= rows_of(trimmed));
            assert(rows_of(trimmed) =~= rows_of(first).skip(cut as int)) by {
                assert(trimmed.wrapped_lines@.len() > 0);
                assert(first.wrapped_lines@.len() > 0);
                assert forall|k: int| 0 <= k < trimmed.wrapped_lines@.len() implies
                    rows_of(trimmed)[k] == rows_of(first).skip(cut as int)[k] by {
                    assert(trimmed.wrapped_lines@[k] == first.wrapped_lines@[cut + k]);
                }
            }
            lemma_all_rows_like(out@.skip(1), full.skip(firstidx + 1));
            assert(all_rows(out@) == rows_of(first).skip(cut as int) + all_rows(
                full.skip(firstidx + 1),
            ));
            lemma_all_rows_len(full.skip(firstidx + 1));
            assert(rows_of(first) =~= all_rows(seq![first]));
            assert(rows_of(first).len() == line_rows(first)) by {
                assert(first.wrapped_lines@.len() > 0);
            }
            assert(s.skip(cut as int) =~= rows_of(first).skip(cut as int) + all_rows(
                full.skip(firstidx + 1),
            ));
            let a = all_rows(full.take(firstidx as int));
            assert(all_rows(full) == a + s);
            assert(total - b == a.len() + cut);
            assert((a + s).skip(a.len() + cut) =~= s.skip(cut as int));
            assert(all_rows(out@) == all_rows(full).skip(total - b));
            lemma_all_rows_len(out@);
        }
        out
    }
}

/// The physical rows one buffered line contributes to the screen./// The physical rows one buffered line contributes to the screen.
pub open spec fn rows_of(l: BufferLine) -> Seq<Seq<char>> {
    if l.wrapped_lines@.len() == 0 {
        seq![l.content@]
    } else {
        l.wrapped_lines@.map_values(|x: String| x@)
    }
}

/// Every physical row of a sequence of lines, oldest first.
pub open spec fn all_rows(lines: Seq<BufferLine>) -> Seq<Seq<char>>
    decreases lines.len(),
{
    if lines.len() == 0 {
        Seq::empty()
    } else {
        all_rows(lines.drop_last()) + rows_of(lines.last())
    }
}

/// The row count and the row sequence agree.
pub proof fn lemma_all_rows_len(lines: Seq<BufferLine>)
    ensures
        all_rows(lines).len() == total_rows(lines),
    decreases lines.len(),
{
    if lines.len() > 0 {
        lemma_all_rows_len(lines.drop_last());
    }
}

pub proof fn lemma_all_rows_prefix(lines: Seq<BufferLine>, i: int)
    requires
        0 <= i < lines.len(),
    ensures
        all_rows(lines.subrange(0, i + 1)) == all_rows(lines.subrange(0, i)) + rows_of(lines[i]),
{
    assert(lines.subrange(0, i + 1).drop_last() =~= lines.subrange(0, i));
    assert(lines.subrange(0, i + 1).last() == lines[i]);
}

/// The row sequence splits wherever the line sequence does.
pub proof fn lemma_all_rows_split(lines: Seq<BufferLine>, m: int)
    requires
        0 <= m <= lines.len(),
    ensures
        all_rows(lines) == all_rows(lines.take(m)) + all_rows(lines.skip(m)),
    decreases lines.len(),
{
    if m == lines.len() {
        assert(lines.take(m) =~= lines);
        assert(lines.skip(m) =~= Seq::<BufferLine>::empty());
        assert(all_rows(lines) + Seq::<Seq<char>>::empty() =~= all_rows(lines));
    } else {
        lemma_all_rows_split(lines.drop_last(), m);
        assert(lines.drop_last().take(m) =~= lines.take(m));
        assert(lines.drop_last().skip(m) =~= lines.skip(m).drop_last());
        assert(lines.skip(m).last() == lines.last());
        assert(all_rows(lines.skip(m)) == all_rows(lines.skip(m).drop_last()) + rows_of(
            lines.last(),
        ));
        assert(all_rows(lines.take(m)) + (all_rows(lines.skip(m).drop_last()) + rows_of(
            lines.last(),
        )) =~= (all_rows(lines.take(m)) + all_rows(lines.skip(m).drop_last())) + rows_of(
            lines.last(),
        ));
    }
}

/// Lines that agree in every observable field carry the same rows.
pub proof fn lemma_all_rows_like(a: Seq<BufferLine>, b: Seq<BufferLine>)
    requires
        a.len() == b.len(),
        forall|i: int| 0 <= i < a.len() ==> line_like(#[trigger] a[i], b[i]),
    ensures
        all_rows(a) == all_rows(b),
    decreases a.len(),
{
    if a.len() > 0 {
        lemma_all_rows_like(a.drop_last(), b.drop_last());
        assert(line_like(a[a.len() - 1], b[a.len() - 1]));
        assert(rows_of(a.last()) =~= rows_of(b.last()));
    }
}

/// How many trailing logical lines it takes to cover `budget` physical
/// rows, walking the buffer backward.
pub open spec fn cover_take(lines: Seq<BufferLine>, budget: int) -> int
    decreases lines.len(),
{
    if budget <= 0 || lines.len() == 0 {
        0
    } else {
        1 + cover_take(lines.drop_last(), budget - line_rows(lines.last()))
    }
}

/// The covering suffix reaches the budget (or the whole buffer), and
/// without its first line it would fall short.
pub proof fn lemma_cover_take(lines: Seq<BufferLine>, budget: int)
    ensures
        0 <= cover_take(lines, budget) <= lines.len(),
        total_rows(lines.skip(lines.len() - cover_take(lines, budget))) >= min_int(
            budget,
            total_rows(lines),
        ),
        cover_take(lines, budget) > 0 ==> total_rows(
            lines.skip(lines.len() - cover_take(lines, budget) + 1),
        ) < budget,
    decreases lines.len(),
{
    if budget <= 0 || lines.len() == 0 {
        assert(lines.skip(lines.len() as int) =~= Seq::<BufferLine>::empty());
    } else {
        let c = cover_take(lines, budget);
        let inner = lines.drop_last();
        let c2 = cover_take(inner, budget - line_rows(lines.last()));
        lemma_cover_take(inner, budget - line_rows(lines.last()));
        let pushed = inner.skip(inner.len() - c2).push(lines.last());
        assert(lines.skip(lines.len() - c) =~= pushed);
        assert(pushed.drop_last() =~= inner.skip(inner.len() - c2));
        assert(pushed.last() == lines.last());
        assert(total_rows(pushed) == total_rows(inner.skip(inner.len() - c2)) + line_rows(
            lines.last(),
        ));
        if c2 > 0 {
            let pushed2 = inner.skip(inner.len() - c2 + 1).push(lines.last());
            assert(lines.skip(lines.len() - c + 1) =~= pushed2);
            assert(pushed2.drop_last() =~= inner.skip(inner.len() - c2 + 1));
            assert(pushed2.last() == lines.last());
            assert(total_rows(pushed2) == total_rows(inner.skip(inner.len() - c2 + 1))
                + line_rows(lines.last()));
        } else {
            assert(lines.skip(lines.len() as int) =~= Seq::<BufferLine>::empty());
        }
    }
}

impl LineBuffer {
    /// Visible window completeness: the trailing physical rows of the
    /// buffer, exactly `min(max_physical_lines + scroll_offset, total rows)`
    /// of them, oldest first.  This is the read path that fills the screen
    /// row-exactly; `get_visible_lines` keeps the whole-logical-line walk
    /// the renderer's per-line colors use.
    pub fn visible_window(&self, max_physical_lines: usize) -> (r: Vec<String>)
        requires
            self.wf(),
            max_physical_lines <= 1000000000,
        ensures
            ({
                let rows = all_rows(self.buffer@);
                let b = min_int(
                    max_physical_lines + self.state.scroll_offset,
                    total_rows(self.buffer@),
                );
                &&& r@.len() == b
                &&& r@.map_values(|x: String| x@) == rows.skip(rows.len() - b)
            }),
    {
        let budget: usize = max_physical_lines + self.state.scroll_offset;
        let ghost full = self.buffer@;
        // gather every physical row
        let mut rows: Vec<String> = Vec::new();
        let mut i: usize = 0;
        proof {
            assert(full.subrange(0, 0) =~= Seq::<BufferLine>::empty());
            assert(rows@.map_values(|x: String| x@) =~= all_rows(full.subrange(0, 0)));
        }
        while i < self.buffer.len()
            invariant
                self.wf(),
                full == self.buffer@,
                i <= full.len(),
                rows@.map_values(|x: String| x@) == all_rows(full.subrange(0, i as int)),
            decreases full.len() - i,
        {
            proof {
                lemma_all_rows_prefix(full, i as int);
            }
            let line = &self.buffer[i];
            if line.wrapped_lines.len() == 0 {
                let ghost prev = rows@;
                rows.push(line.content.clone());
                proof {
                    prev.lemma_push_map_commute(|x: String| x@, rows@.last());
                    assert(rows@.map_values(|x: String| x@) =~= all_rows(
                        full.subrange(0, i + 1),
                    ));
                }
            } else {
                let mut j: usize = 0;
                while j < line.wrapped_lines.len()
                    invariant
                        line == self.buffer@[i as int],
                        j <= line.wrapped_lines@.len() >= 1,
                        rows@.map_values(|x: String| x@) == all_rows(full.subrange(0, i as int))
                            + line.wrapped_lines@.map_values(|x: String| x@).take(j as int),
                    decreases line.wrapped_lines@.len() - j,
                {
                    let ghost prev = rows@;
                    rows.push(line.wrapped_lines[j].clone());
                    j = j + 1;
                    proof {
                        prev.lemma_push_map_commute(|x: String| x@, rows@.last());
                        assert(rows@.map_values(|x: String| x@) =~= all_rows(
                            full.subrange(0, i as int),
                        ) + line.wrapped_lines@.map_values(|x: String| x@).take(j as int));
                    }
                }
                proof {
                    assert(line.wrapped_lines@.map_values(|x: String| x@).take(
                        line.wrapped_lines@.len() as int,
                    ) =~= rows_of(full[i as int]));
                    assert(rows@.map_values(|x: String| x@) =~= all_rows(
                        full.subrange(0, i + 1),
                    ));
                }
            }
            i = i + 1;
        }
        proof {
            assert(full.subrange(0, full.len() as int) =~= full);
            lemma_all_rows_len(full);
        }
        // keep the trailing slice the budget asks for
        let total = rows.len();
        let b = if budget < total {
            budget
        } else {
            total
        };
        let start = total - b;
        let mut out: Vec<String> = Vec::new();
        let mut k: usize = start;
        proof {
            assert(out@.map_values(|x: String| x@) =~= all_rows(full).skip(start as int).take(0));
        }
        while k < total
            invariant
                start <= k <= total,
                total == all_rows(full).len(),
                rows@.map_values(|x: String| x@) == all_rows(full),
                rows@.len() == total,
                out@.map_values(|x: String| x@) == all_rows(full).skip(start as int).take(
                    k - start,
                ),
            decreases total - k,
        {
            let ghost prev = out@;
            out.push(rows[k].clone());
            k = k + 1;
            proof {
                prev.lemma_push_map_commute(|x: String| x@, out@.last());
                assert(out@.map_values(|x: String| x@) =~= all_rows(full).skip(
                    start as int,
                ).take(k - start));
            }
        }
        proof {
            assert(out@.map_values(|x: String| x@) =~= all_rows(full).skip(start as int));
        }
        out
    }
}

/// The least index of `'\n'` in `s`, or the length when there is none.
pub open spec fn first_newline(s: Seq<char>) -> int
    decreases s.len(),
{
    if s.len() == 0 {
        0
    } else if s[0] == '\n' {
        0
    } else {
        1 + first_newline(s.skip(1))
    }
}

pub proof fn lemma_first_newline(s: Seq<char>)
    ensures
        0 <= first_newline(s) <= s.len(),
        forall|i: int| 0 <= i < first_newline(s) ==> s[i] != '\n',
        first_newline(s) < s.len() ==> s[first_newline(s)] == '\n',
    decreases s.len(),
{
    if s.len() > 0 && s[0] != '\n' {
        lemma_first_newline(s.skip(1));
        assert forall|i: int| 0 <= i < first_newline(s) implies s[i] != '\n' by {
            if i > 0 {
                assert(s.skip(1)[i - 1] == s[i]);
            }
        }
    }
}

/// One text segment as the line splitter emits it: everything before the
/// next newline, with one trailing carriage return stripped.
pub open spec fn segment_of(raw: Seq<char>) -> Seq<char> {
    if raw.len() > 0 && raw.last() == '\r' {
        raw.drop_last()
    } else {
        raw
    }
}

/// Splits text into lines: segments between newlines, no trailing empty
/// segment for text that ends in a newline, carriage returns stripped.
pub open spec fn split_lines(s: Seq<char>) -> Seq<Seq<char>>
    decreases s.len(),
{
    if s.len() == 0 {
        Seq::empty()
    } else {
        let nl = first_newline(s);
        if 0 <= nl && nl < s.len() {
            seq![segment_of(s.subrange(0, nl))] + split_lines(s.skip(nl + 1))
        } else {
            seq![segment_of(s)]
        }
    }
}

/// The observable face of one buffered line: content, kind and color.
pub open spec fn summaries(lines: Seq<BufferLine>) -> Seq<(Seq<char>, LineType, Option<String>)> {
    lines.map_values(|l: BufferLine| (l.content@, l.line_type, l.color))
}

/// A run of capped appends of the given segments, newest last.
pub open spec fn append_fold(
    cur: Seq<(Seq<char>, LineType, Option<String>)>,
    segs: Seq<Seq<char>>,
    lt: LineType,
    color: Option<String>,
    cap: int,
) -> Seq<(Seq<char>, LineType, Option<String>)>
    decreases segs.len(),
{
    if segs.len() == 0 {
        cur
    } else {
        append_fold(evict_step(cur, (segs[0], lt, color), cap), segs.skip(1), lt, color, cap)
    }
}

impl LineBuffer {
    /// Splits `content` on line breaks and appends the pieces in order,
    /// each under the retention cap.
    pub fn add_lines(&mut self, content: &str, line_type: LineType, color: Option<String>)
        requires
            old(self).wf(),
        ensures
            final(self).wf(),
            final(self).state == old(self).state,
            final(self).max_lines == old(self).max_lines,
            final(self).terminal_width == old(self).terminal_width,
            final(self).terminal_height == old(self).terminal_height,
            final(self).max_scroll_lines == old(self).max_scroll_lines,
            summaries(final(self).buffer@) == append_fold(
                summaries(old(self).buffer@),
                split_lines(content@),
                line_type,
                color,
                old(self).max_lines as int,
            ),
    {
        let segs = split_lines_vec(content);
        let mut i: usize = 0;
        proof {
            assert(split_lines(content@).skip(0) =~= split_lines(content@));
        }
        while i < segs.len()
            invariant
                self.wf(),
                self.state == old(self).state,
                self.max_lines == old(self).max_lines,
                self.terminal_width == old(self).terminal_width,
                self.terminal_height == old(self).terminal_height,
                self.max_scroll_lines == old(self).max_scroll_lines,
                i <= segs@.len(),
                segs@.map_values(|x: String| x@) == split_lines(content@),
                append_fold(
                    summaries(old(self).buffer@),
                    split_lines(content@),
                    line_type,
                    color,
                    old(self).max_lines as int,
                ) == append_fold(
                    summaries(self.buffer@),
                    split_lines(content@).skip(i as int),
                    line_type,
                    color,
                    old(self).max_lines as int,
                ),
            decreases segs@.len() - i,
        {
            let ghost segs_left = split_lines(content@).skip(i as int);
            let ghost before = summaries(self.buffer@);
            let seg = segs[i].clone();
            let col = clone_opt_string(&color);
            self.add_line(seg, line_type, col);
            proof {
                let cap = old(self).max_lines as int;
                let pushed_line = self.buffer@.last();
                assert(summaries(self.buffer@) =~= evict_step(
                    before,
                    (segs@[i as int]@, line_type, color),
                    cap,
                ));
                assert(segs_left[0] == segs@[i as int]@);
                assert(segs_left.skip(1) =~= split_lines(content@).skip(i + 1));
            }
            i = i + 1;
        }
        proof {
            assert(split_lines(content@).skip(segs@.len() as int)
                =~= Seq::<Seq<char>>::empty());
        }
    }
}

/// Splits text on newlines exactly as the spec-level splitter does.
pub fn split_lines_vec(content: &str) -> (r: Vec<String>)
    ensures
        r@.map_values(|x: String| x@) == split_lines(content@),
{
    let chars = crate::strutil::chars_of(content);
    let n = chars.len();
    let mut r: Vec<String> = Vec::new();
    let mut start: usize = 0;
    let ghost full = content@;
    proof {
        assert(full.skip(0) =~= full);
        assert(r@.map_values(|x: String| x@) + split_lines(full.skip(0)) =~= split_lines(full));
    }
    while start < n
        invariant
            chars@ == full,
            n == full.len(),
            start <= n,
            r@.map_values(|x: String| x@) + split_lines(full.skip(start as int)) == split_lines(
                full,
            ),
        decreases n - start,
    {
        let ghost rem = full.skip(start as int);
        // scan for the next newline
        let mut j: usize = start;
        while j < n && chars[j] != '\n'
            invariant
                chars@ == full,
                n == full.len(),
                start <= j <= n,
                forall|k: int| start <= k < j ==> full[k] != '\n',
            decreases n - j,
        {
            j = j + 1;
        }
        proof {
            assert forall|k: int| 0 <= k < j - start implies rem[k] != '\n' by {
                assert(rem[k] == full[start + k]);
            }
            lemma_first_newline(rem);
            if j < n {
                assert(rem[j - start] == full[j as int]);
            }
            assert(first_newline(rem) == j - start) by {
                lemma_first_newline(rem);
                if first_newline(rem) < j - start {
                    assert(rem[first_newline(rem)] == '\n');
                }
                if first_newline(rem) > j - start {
                    assert(j < n);
                }
            }
        }
        // the raw segment is chars[start..j]; strip one trailing '\r'
        let seg_end = if j > start && chars[j - 1] == '\r' {
            j - 1
        } else {
            j
        };
        let seg = crate::strutil::string_range(&chars, start, seg_end);
        let ghost prev = r@;
        r.push(seg);
        proof {
            let raw = rem.subrange(0, j - start);
            assert(raw =~= full.subrange(start as int, j as int));
            if j > start && full[j - 1] == '\r' {
                assert(raw.last() == '\r');
                assert(raw.drop_last() =~= full.subrange(start as int, j - 1));
            }
            assert(r@.last()@ == segment_of(raw));
            prev.lemma_push_map_commute(|x: String| x@, r@.last());
            if j == n {
                assert(split_lines(rem) == seq![segment_of(rem)]);
                assert(rem =~= raw);
                assert(r@.map_values(|x: String| x@) =~= prev.map_values(|x: String| x@)
                    + seq![segment_of(raw)]);
                assert(r@.map_values(|x: String| x@) + split_lines(full.skip(n as int))
                    =~= split_lines(full));
            } else {
                assert(rem.skip(j - start + 1) =~= full.skip(j + 1));
                assert(split_lines(rem) == seq![segment_of(raw)] + split_lines(full.skip(j + 1)));
                assert(r@.map_values(|x: String| x@) + split_lines(full.skip(j + 1))
                    =~= split_lines(full));
            }
        }
        start = if j == n {
            n
        } else {
            j + 1
        };
    }
    proof {
        assert(full.skip(n as int) =~= Seq::<char>::empty());
        assert(split_lines(full.skip(n as int)) == Seq::<Seq<char>>::empty());
        assert(r@.map_values(|x: String| x@) + Seq::<Seq<char>>::empty() =~= r@.map_values(
            |x: String| x@,
        ));
    }
    r
}

impl LineBuffer {
    /// Appends the echoed command line, prompt and input joined, in the
    /// command color.
    pub fn add_command(&mut self, prompt: &str, input: &str)
        requires
            old(self).wf(),
        ensures
            final(self).wf(),
            final(self).state == old(self).state,
            final(self).max_lines == old(self).max_lines,
            final(self).terminal_width == old(self).terminal_width,
            final(self).terminal_height == old(self).terminal_height,
            final(self).max_scroll_lines == old(self).max_scroll_lines,
            final(self).buffer@.last().content@ == prompt@ + input@,
            final(self).buffer@.last().line_type == LineType::Command,
            final(self).buffer@.last().color is Some,
            final(self).buffer@.last().color->0@ == "cyan"@,
            final(self).buffer@ == evict_step(
                old(self).buffer@,
                final(self).buffer@.last(),
                old(self).max_lines as int,
            ),
    {
        let full_command = prompt.to_owned().concat(input);
        self.add_line(full_command, LineType::Command, Some("cyan".to_owned()));
    }

    /// `add_command` under the name the host input layer calls.
    pub fn add_command_line(&mut self, prompt: &str, input: &str)
        requires
            old(self).wf(),
        ensures
            final(self).wf(),
            final(self).state == old(self).state,
            final(self).max_lines == old(self).max_lines,
            final(self).terminal_width == old(self).terminal_width,
            final(self).terminal_height == old(self).terminal_height,
            final(self).max_scroll_lines == old(self).max_scroll_lines,
            final(self).buffer@.last().content@ == prompt@ + input@,
            final(self).buffer@.last().line_type == LineType::Command,
            final(self).buffer@.last().color is Some,
            final(self).buffer@.last().color->0@ == "cyan"@,
            final(self).buffer@ == evict_step(
                old(self).buffer@,
                final(self).buffer@.last(),
                old(self).max_lines as int,
            ),
    {
        self.add_command(prompt, input)
    }

    /// `add_lines` for command output, under the name the host calls.
    pub fn add_output_lines(&mut self, output: &str, color: Option<String>)
        requires
            old(self).wf(),
        ensures
            final(self).wf(),
            final(self).state == old(self).state,
            final(self).max_lines == old(self).max_lines,
            final(self).terminal_width == old(self).terminal_width,
            final(self).terminal_height == old(self).terminal_height,
            final(self).max_scroll_lines == old(self).max_scroll_lines,
            summaries(final(self).buffer@) == append_fold(
                summaries(old(self).buffer@),
                split_lines(output@),
                LineType::Output,
                color,
                old(self).max_lines as int,
            ),
    {
        self.add_lines(output, LineType::Output, color)
    }

    /// `clear` under the name the host calls.
    pub fn clear_buffer(&mut self)
        requires
            old(self).wf(),
        ensures
            final(self).wf(),
            final(self).buffer@ == Seq::<BufferLine>::empty(),
            final(self).state == (TerminalState { scroll_offset: 0, ..old(self).state }),
            final(self).max_lines == old(self).max_lines,
            final(self).terminal_width == old(self).terminal_width,
            final(self).terminal_height == old(self).terminal_height,
            final(self).max_scroll_lines == old(self).max_scroll_lines,
    {
        self.clear()
    }

    /// `set_dimensions` under the name the host calls.
    pub fn set_terminal_dimensions(&mut self, width: usize, height: usize)
        requires
            old(self).wf(),
            height <= 1000000000,
        ensures
            final(self).wf(),
            LineBuffer::rewrapped(*old(self), *final(self), width, height),
    {
        self.set_dimensions(width, height)
    }

    /// `update_input` under the name the host calls.
    pub fn update_input_state(&mut self, input: String, cursor_pos: usize)
        requires
            old(self).wf(),
        ensures
            final(self).wf(),
            final(self).buffer == old(self).buffer,
            final(self).max_lines == old(self).max_lines,
            final(self).terminal_width == old(self).terminal_width,
            final(self).terminal_height == old(self).terminal_height,
            final(self).max_scroll_lines == old(self).max_scroll_lines,
            final(self).state.prompt == old(self).state.prompt,
            final(self).state.input_mode == old(self).state.input_mode,
            final(self).state.scroll_offset == old(self).state.scroll_offset,
            final(self).state.current_input == input,
            final(self).state.cursor_position as int == min_int(cursor_pos as int, input@.len() as int),
    {
        self.update_input(input, cursor_pos)
    }

    /// `set_prompt` under the name the host calls.
    pub fn set_current_prompt(&mut self, prompt: String)
        requires
            old(self).wf(),
        ensures
            final(self).wf(),
            *final(self) == (LineBuffer {
                state: (TerminalState { prompt: prompt, ..old(self).state }),
                ..*old(self)
            }),
    {
        self.set_prompt(prompt)
    }

    /// `auto_scroll_bottom` under the name the host calls.
    pub fn auto_scroll_to_bottom(&mut self)
        requires
            old(self).wf(),
        ensures
            final(self).wf(),
            *final(self) == (LineBuffer {
                state: (TerminalState { scroll_offset: 0, ..old(self).state }),
                ..*old(self)
            }),
    {
        self.auto_scroll_bottom()
    }
}

/// Idempotent re-wrap: re-wrapping at a width and then re-wrapping at the
/// same width again leaves every line's wrapped rows identical.
pub proof fn lemma_rewrap_idempotent(
    b0: LineBuffer,
    b1: LineBuffer,
    b2: LineBuffer,
    width: usize,
    height: usize,
)
    requires
        LineBuffer::rewrapped(b0, b1, width, height),
        LineBuffer::rewrapped(b1, b2, width, height),
    ensures
        b2.buffer@.len() == b1.buffer@.len(),
        forall|i: int| 0 <= i < b1.buffer@.len() ==> (#[trigger] b2.buffer@[i]).wrapped_lines@.map_values(
            |x: String| x@,
        ) == b1.buffer@[i].wrapped_lines@.map_values(|x: String| x@),
        forall|i: int| 0 <= i < b1.buffer@.len() ==> (#[trigger] b2.buffer@[i]).content
            == b1.buffer@[i].content,
{
}

pub open spec fn min_int(a: int, b: int) -> int {
    if a < b {
        a
    } else {
        b
    }
}

pub open spec fn max_int(a: int, b: int) -> int {
    if a > b {
        a
    } else {
        b
    }
}

/// Scroll bounds: from any well-formed state, scrolling up never drives the
/// offset above the capped backlog bound, and scrolling down never below
/// zero.
pub proof fn lemma_scroll_bounds(b: LineBuffer, up: LineBuffer, down: LineBuffer, n: usize)
    requires
        b.wf(),
        up.state.scroll_offset as int == min_int(
            b.state.scroll_offset + n,
            b.max_scroll_offset(),
        ),
        down.state.scroll_offset as int == max_int(b.state.scroll_offset - n, 0),
    ensures
        up.state.scroll_offset <= max_int(
            total_rows(b.buffer@) - b.terminal_height,
            0,
        ) || up.state.scroll_offset <= b.state.scroll_offset,
        up.state.scroll_offset <= max_int(b.max_scroll_lines as int, b.state.scroll_offset as int),
        down.state.scroll_offset >= 0,
{
}

} // verus!
