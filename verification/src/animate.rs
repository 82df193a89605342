//! The animation sequencer: every animated routine is an explicit state
//! machine whose `step` returns what to draw and how long to suspend; the
//! host performs the draw, sleeps, and calls `step` again.  A routine
//! commits its line to the buffer only on its final step, never while still
//! animating, and input stays disabled for its whole duration.

use vstd::prelude::*;
use crate::buffer::{evict_step, InputMode, LineBuffer, LineType};
use crate::strutil::{chars_of, string_range};

verus! {

/// How one line should be presented.
#[derive(Debug)]
pub struct LineOptions {
    pub color: Option<String>,
    pub boot_animation: bool,
    pub typing_speed: Option<i32>,
}

impl Default for LineOptions {
    fn default() -> (r: Self)
        ensures
            r.color is None,
            !r.boot_animation,
            r.typing_speed is None,
    {
        Self { color: Option::None, boot_animation: false, typing_speed: Option::None }
    }
}

impl LineOptions {
    pub fn new() -> (r: Self)
        ensures
            r.color is None,
            !r.boot_animation,
            r.typing_speed is None,
    {
        Self::default()
    }

    pub fn with_color(self, color: &str) -> (r: Self)
        ensures
            r.color is Some,
            r.color->0@ == color@,
            r.boot_animation == self.boot_animation,
            r.typing_speed == self.typing_speed,
    {
        Self { color: Option::Some(color.to_owned()), ..self }
    }

    pub fn with_boot_animation(self) -> (r: Self)
        ensures
            r.color == self.color,
            r.boot_animation,
            r.typing_speed == self.typing_speed,
    {
        Self { boot_animation: true, ..self }
    }

    pub fn with_typing(self, speed: i32) -> (r: Self)
        ensures
            r.color == self.color,
            r.boot_animation == self.boot_animation,
            r.typing_speed == Option::Some(speed),
    {
        Self { typing_speed: Option::Some(speed), ..self }
    }
}

/// What the host must do after one animation step: redraw the routine's row
/// with `display`, then suspend for `delay_ms`.
pub struct AnimationStep {
    pub display: String,
    pub delay_ms: i32,
}

/// The typewriter routine: reveals the text one codepoint per step and
/// commits the whole line only after the last character has been drawn.
pub struct TypingRoutine {
    pub text: String,
    pub chars: Vec<char>,
    pub pos: usize,
    pub speed: i32,
    pub color: Option<String>,
    pub done: bool,
}

impl TypingRoutine {
    pub open spec fn wf(&self) -> bool {
        &&& self.chars@ == self.text@
        &&& self.pos <= self.chars@.len()
        &&& (self.done ==> self.pos == self.chars@.len())
    }

    /// Starts the routine; input is disabled for its whole duration.
    pub fn start(text: String, speed: i32, color: Option<String>, buf: &mut LineBuffer) -> (r:
        Self)
        requires
            old(buf).wf(),
        ensures
            r.wf(),
            !r.done,
            r.text == text,
            r.pos == 0,
            r.speed == speed,
            r.color == color,
            final(buf).wf(),
            *final(buf) == (LineBuffer {
                state: (crate::buffer::TerminalState {
                    input_mode: InputMode::Disabled,
                    ..old(buf).state
                }),
                ..*old(buf)
            }),
    {
        buf.set_input_mode(InputMode::Disabled);
        let chars = chars_of(text.as_str());
        Self { text, chars, pos: 0, speed, color, done: false }
    }

    /// One cooperative step.  While characters remain this only extends the
    /// drawn prefix — the buffer is untouched, which is the commit-timing
    /// guarantee.  The step after the last character commits the full line
    /// to the buffer and finishes.
    pub fn step(&mut self, buf: &mut LineBuffer) -> (r: AnimationStep)
        requires
            old(self).wf(),
            !old(self).done,
            old(buf).wf(),
        ensures
            final(self).wf(),
            final(buf).wf(),
            final(self).text == old(self).text,
            final(self).speed == old(self).speed,
            final(self).color == old(self).color,
            old(self).pos < old(self).text@.len() ==> {
                &&& *final(buf) == *old(buf)
                &&& !final(self).done
                &&& final(self).pos == old(self).pos + 1
                &&& r.display@ == old(self).text@.subrange(0, old(self).pos + 1)
                &&& r.delay_ms == old(self).speed
            },
            old(self).pos == old(self).text@.len() ==> {
                &&& final(self).done
                &&& final(buf).state == old(buf).state
                &&& final(buf).max_lines == old(buf).max_lines
                &&& final(buf).buffer@.last().content@ == old(self).text@
                &&& final(buf).buffer@.last().line_type == LineType::Typing
                &&& final(buf).buffer@.last().color == old(self).color
                &&& final(buf).buffer@ == evict_step(
                    old(buf).buffer@,
                    final(buf).buffer@.last(),
                    old(buf).max_lines as int,
                )
                &&& r.display@ == old(self).text@
                &&& r.delay_ms == 0
            },
    {
        if self.pos < self.chars.len() {
            let display = string_range(&self.chars, 0, self.pos + 1);
            self.pos = self.pos + 1;
            proof {
                assert(display@ =~= self.text@.subrange(0, self.pos as int));
            }
            AnimationStep { display, delay_ms: self.speed }
        } else {
            let content = self.text.clone();
            let color = crate::buffer::clone_opt_string(&self.color);
            buf.add_line(content, LineType::Typing, color);
            self.done = true;
            AnimationStep { display: self.text.clone(), delay_ms: 0 }
        }
    }
}

/// The spinner glyph shown on a boot line's given frame.
pub open spec fn spinner_glyph(frame: int) -> Seq<char> {
    if frame == 0 {
        "\u{280b}"@
    } else if frame == 1 {
        "\u{2819}"@
    } else if frame == 2 {
        "\u{2839}"@
    } else {
        "\u{2838}"@
    }
}

pub fn spinner_glyph_str(frame: usize) -> (r: &'static str)
    requires
        frame < 4,
    ensures
        r@ == spinner_glyph(frame as int),
{
    if frame == 0 {
        "\u{280b}"
    } else if frame == 1 {
        "\u{2819}"
    } else if frame == 2 {
        "\u{2839}"
    } else {
        "\u{2838}"
    }
}

/// The boot-line routine: four spinner frames on the same row, then the
/// final text with an `[OK]` suffix, which is the only thing that ever
/// reaches the buffer.
pub struct BootRoutine {
    pub task: String,
    pub frame: usize,
    pub color: Option<String>,
    pub done: bool,
}

impl BootRoutine {
    pub open spec fn wf(&self) -> bool {
        &&& self.frame <= 4
        &&& (self.done ==> self.frame == 4)
    }

    /// Starts the routine; input is disabled for its whole duration.
    pub fn start(task: String, color: Option<String>, buf: &mut LineBuffer) -> (r: Self)
        requires
            old(buf).wf(),
        ensures
            r.wf(),
            !r.done,
            r.task == task,
            r.frame == 0,
            r.color == color,
            final(buf).wf(),
            *final(buf) == (LineBuffer {
                state: (crate::buffer::TerminalState {
                    input_mode: InputMode::Disabled,
                    ..old(buf).state
                }),
                ..*old(buf)
            }),
    {
        buf.set_input_mode(InputMode::Disabled);
        Self { task, frame: 0, color, done: false }
    }

    /// One cooperative step: a spinner frame leaves the buffer untouched;
    /// the finalizing step commits `task [OK]` as a boot line.
    pub fn step(&mut self, buf: &mut LineBuffer) -> (r: AnimationStep)
        requires
            old(self).wf(),
            !old(self).done,
            old(buf).wf(),
        ensures
            final(self).wf(),
            final(buf).wf(),
            final(self).task == old(self).task,
            final(self).color == old(self).color,
            old(self).frame < 4 ==> {
                &&& *final(buf) == *old(buf)
                &&& !final(self).done
                &&& final(self).frame == old(self).frame + 1
                &&& r.display@ == old(self).task@ + " "@ + spinner_glyph(old(self).frame as int)
                &&& r.delay_ms == 60
            },
            old(self).frame == 4 ==> {
                &&& final(self).done
                &&& final(buf).state == old(buf).state
                &&& final(buf).max_lines == old(buf).max_lines
                &&& final(buf).buffer@.last().content@ == old(self).task@ + " [OK]"@
                &&& final(buf).buffer@.last().line_type == LineType::Boot
                &&& final(buf).buffer@.last().color == old(self).color
                &&& final(buf).buffer@ == evict_step(
                    old(buf).buffer@,
                    final(buf).buffer@.last(),
                    old(buf).max_lines as int,
                )
                &&& r.display@ == old(self).task@ + " [OK]"@
                &&& r.delay_ms == 0
            },
    {
        if self.frame < 4 {
            let mut display = self.task.clone();
            display.append(" ");
            display.append(spinner_glyph_str(self.frame));
            self.frame = self.frame + 1;
            AnimationStep { display, delay_ms: 60 }
        } else {
            let mut text = self.task.clone();
            text.append(" [OK]");
            let display = text.clone();
            let color = crate::buffer::clone_opt_string(&self.color);
            buf.add_line(text, LineType::Boot, color);
            self.done = true;
            AnimationStep { display, delay_ms: 0 }
        }
    }
}

/// The instant routine: commits and draws the line in one step, with no
/// suspension.
pub fn instant_line(buf: &mut LineBuffer, text: &str, color: Option<String>) -> (r: AnimationStep)
    requires
        old(buf).wf(),
    ensures
        final(buf).wf(),
        final(buf).state == old(buf).state,
        final(buf).max_lines == old(buf).max_lines,
        final(buf).buffer@.last().content@ == text@,
        final(buf).buffer@.last().line_type == LineType::Normal,
        final(buf).buffer@.last().color == color,
        final(buf).buffer@ == evict_step(
            old(buf).buffer@,
            final(buf).buffer@.last(),
            old(buf).max_lines as int,
        ),
        r.display@ == text@,
        r.delay_ms == 0,
{
    buf.add_line(text.to_owned(), LineType::Normal, color);
    AnimationStep { display: text.to_owned(), delay_ms: 0 }
}

/// The meltdown script: each line with its color, in order.
pub open spec fn panic_script() -> Seq<(Seq<char>, Seq<char>)> {
    seq![
        ("CRITICAL SYSTEM ERROR"@, "error"@),
        (""@, ""@),
        ("Deleting root filesystem..."@, "warning"@),
        ("rm: removing /usr... 75%"@, "warning"@),
        ("rm: removing /var... 87%"@, "warning"@),
        ("rm: removing /etc... 100%"@, "warning"@),
        (""@, ""@),
        ("Filesystem table corrupted."@, "error"@),
        ("Kernel panic: Attempted to kill init!"@, "error"@),
        ("System halt issued."@, "error"@),
        (""@, ""@),
        ("Emergency shutdown in 3..."@, "warning"@),
        ("Emergency shutdown in 2..."@, "warning"@),
        ("Emergency shutdown in 1..."@, "warning"@),
        (""@, ""@),
        ("Shutdown failed. Recovery was possible."@, "success"@),
    ]
}

/// The fake meltdown routine: it walks the script and decides, per line,
/// whether the host types it out or prints it at once — the progress rows
/// appear instantly, everything else is typed.
pub struct PanicScript {
    pub pos: usize,
}

impl PanicScript {
    pub fn new() -> (r: Self)
        ensures
            r.pos == 0,
    {
        Self { pos: 0 }
    }

    /// The next line of the script, its color, and whether it is typed;
    /// nothing once the script is over.
    pub fn next(&mut self) -> (r: Option<(String, String, bool)>)
        ensures
            final(self).pos == old(self).pos + (if old(self).pos < panic_script().len() {
                1int
            } else {
                0int
            }),
            old(self).pos < panic_script().len() ==> ({
                let entry = panic_script()[old(self).pos as int];
                let step = r->0;
                &&& r is Some
                &&& step.0@ == entry.0
                &&& step.1@ == entry.1
                &&& step.2 == !crate::strutil::starts_with_spec(entry.0, "rm: removing"@)
            }),
            old(self).pos >= panic_script().len() ==> r is None && *final(self) == *old(self),
    {
        let line: &'static str = if self.pos == 0 {
            "CRITICAL SYSTEM ERROR"
        } else if self.pos == 2 {
            "Deleting root filesystem..."
        } else if self.pos == 3 {
            "rm: removing /usr... 75%"
        } else if self.pos == 4 {
            "rm: removing /var... 87%"
        } else if self.pos == 5 {
            "rm: removing /etc... 100%"
        } else if self.pos == 7 {
            "Filesystem table corrupted."
        } else if self.pos == 8 {
            "Kernel panic: Attempted to kill init!"
        } else if self.pos == 9 {
            "System halt issued."
        } else if self.pos == 11 {
            "Emergency shutdown in 3..."
        } else if self.pos == 12 {
            "Emergency shutdown in 2..."
        } else if self.pos == 13 {
            "Emergency shutdown in 1..."
        } else if self.pos == 15 {
            "Shutdown failed. Recovery was possible."
        } else {
            ""
        };
        let color: &'static str = if self.pos == 0 || self.pos == 7 || self.pos == 8 || self.pos
            == 9 {
            "error"
        } else if self.pos == 2 || self.pos == 3 || self.pos == 4 || self.pos == 5 || self.pos
            == 11 || self.pos == 12 || self.pos == 13 {
            "warning"
        } else if self.pos == 15 {
            "success"
        } else {
            ""
        };
        if self.pos >= 16 {
            return Option::None;
        }
        let typed = !crate::strutil::starts_with(line, "rm: removing");
        self.pos = self.pos + 1;
        Option::Some((line.to_owned(), color.to_owned(), typed))
    }
}

} // verus!

