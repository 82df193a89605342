//! The decorative locomotive effect: argument parsing, the clipped
//! row-printing primitive, the crew figures, and the smoke particles'
//! ring of state.  Each tick the host asks for the draw commands and
//! paints them; the bookkeeping here is what must not be corrupted
//! between ticks.

use vstd::prelude::*;
use crate::buffer::{evict_step, LineBuffer, LineType};
use crate::strutil::{chars_of, string_range};

verus! {

/// The canvas bounds the effect clips against, in cells.
pub open spec fn canvas_cols() -> int {
    700
}

pub open spec fn canvas_rows() -> int {
    550
}

/// The locomotive's command-line options.
#[derive(Clone, Copy, PartialEq, Eq, Structural, Debug)]
pub struct Options {
    pub accident: bool,
    pub fly: bool,
    pub logo: bool,
    pub c51: bool,
}

impl Options {
    /// Reads the flags; anything unknown is ignored.
    pub fn parse(args: &[&str]) -> (r: Options)
        ensures
            r.accident == (exists|i: int| 0 <= i < args@.len() && (#[trigger] args@[i])@ == "-a"@),
            r.fly == (exists|i: int| 0 <= i < args@.len() && (#[trigger] args@[i])@ == "-f"@),
            r.logo == (exists|i: int| 0 <= i < args@.len() && (#[trigger] args@[i])@ == "-l"@),
            r.c51 == (exists|i: int| 0 <= i < args@.len() && (#[trigger] args@[i])@ == "-c"@),
    {
        let mut options = Options { accident: false, fly: false, logo: false, c51: false };
        let mut i: usize = 0;
        while i < args.len()
            invariant
                i <= args@.len(),
                options.accident == (exists|k: int|
                    0 <= k < i && (#[trigger] args@[k])@ == "-a"@),
                options.fly == (exists|k: int| 0 <= k < i && (#[trigger] args@[k])@ == "-f"@),
                options.logo == (exists|k: int| 0 <= k < i && (#[trigger] args@[k])@ == "-l"@),
                options.c51 == (exists|k: int| 0 <= k < i && (#[trigger] args@[k])@ == "-c"@),
            decreases args@.len() - i,
        {
            let a = args[i];
            proof {
                reveal_strlit("-a");
                reveal_strlit("-f");
                reveal_strlit("-l");
                reveal_strlit("-c");
                assert("-a"@.len() == 2 && "-a"@[1] == 'a');
                assert("-f"@.len() == 2 && "-f"@[1] == 'f');
                assert("-l"@.len() == 2 && "-l"@[1] == 'l');
                assert("-c"@.len() == 2 && "-c"@[1] == 'c');
            }
            if crate::strutil::str_eq(a, "-a") {
                options.accident = true;
            } else if crate::strutil::str_eq(a, "-f") {
                options.fly = true;
            } else if crate::strutil::str_eq(a, "-l") {
                options.logo = true;
            } else if crate::strutil::str_eq(a, "-c") {
                options.c51 = true;
            }
            i = i + 1;
        }
        options
    }
}

/// Whether a row at column `x` with `len` cells shows at all.
pub open spec fn row_visible(x: int, y: int, len: int) -> bool {
    !(x >= canvas_cols() || x + len < 0 || y >= canvas_rows() || y < 0)
}

/// The part of the row that fits the canvas: everything from the first
/// on-screen cell to the last.
pub open spec fn clipped_row(pat: Seq<char>, x: int) -> Seq<char> {
    let lower = if x < 0 {
        -x
    } else {
        0
    };
    let upper = if pat.len() <= canvas_cols() - x {
        pat.len() as int
    } else {
        canvas_cols() - x
    };
    pat.subrange(lower, upper)
}

/// Prints one sprite row, clipped to the canvas; a row fully off screen
/// leaves the buffer alone.
pub fn move_print(buf: &mut LineBuffer, x: i32, y: i32, pat: &str)
    requires
        old(buf).wf(),
        pat@.len() <= 1000000,
    ensures
        final(buf).wf(),
        printed_row(*old(buf), *final(buf), x as int, y as int, pat@),
{
    let chars = chars_of(pat);
    let len: i64 = chars.len() as i64;
    let xi: i64 = x as i64;
    let yi: i64 = y as i64;
    if xi >= 700 || xi + len < 0 || yi >= 550 || yi < 0 {
        return ;
    }
    let lower: usize = if xi < 0 {
        (-xi) as usize
    } else {
        0
    };
    let upper: usize = if len <= 700 - xi {
        chars.len()
    } else {
        (700 - xi) as usize
    };
    let piece = string_range(&chars, lower, upper);
    buf.add_line(piece, LineType::Output, Option::None);
}

/// The effect one `move_print` has: off-screen rows change nothing, an
/// on-screen row appends its clipped text as an uncolored output line
/// under the retention cap.
pub open spec fn printed_row(
    oldb: LineBuffer,
    newb: LineBuffer,
    x: int,
    y: int,
    pat: Seq<char>,
) -> bool {
    &&& newb.state == oldb.state
    &&& newb.max_lines == oldb.max_lines
    &&& newb.terminal_width == oldb.terminal_width
    &&& newb.terminal_height == oldb.terminal_height
    &&& newb.max_scroll_lines == oldb.max_scroll_lines
    &&& if !row_visible(x, y, pat.len() as int) {
        newb == oldb
    } else {
        &&& newb.buffer@.last().content@ == clipped_row(pat, x)
        &&& newb.buffer@.last().line_type == LineType::Output
        &&& newb.buffer@.last().color is None
        &&& newb.buffer@ == evict_step(oldb.buffer@, newb.buffer@.last(), oldb.max_lines as int)
    }
}

/// The two-frame crew figure beside a derailed engine.
pub open spec fn man_pattern(phase: int, row: int) -> Seq<char> {
    if phase == 0 {
        if row == 0 {
            ""@
        } else {
            "(O)"@
        }
    } else {
        if row == 0 {
            "Help!"@
        } else {
            "\\O/"@
        }
    }
}

pub fn man_pattern_str(phase: usize, row: usize) -> (r: &'static str)
    requires
        phase < 2,
        row < 2,
    ensures
        r@ == man_pattern(phase as int, row as int),
{
    if phase == 0 {
        if row == 0 {
            ""
        } else {
            "(O)"
        }
    } else {
        if row == 0 {
            "Help!"
        } else {
            "\\O/"
        }
    }
}

/// Draws the two rows of a crying crew figure at the position the frame
/// counter picks.
pub fn add_man(buf: &mut LineBuffer, x: i32, y: i32)
    requires
        old(buf).wf(),
        x >= -84,
        x <= 1000000,
        -1000000 <= y <= 1000000 - 1,
    ensures
        final(buf).wf(),
        ({
            let phase = ((84 + x) as int / 12) % 2;
            exists|mid: LineBuffer|
                #[trigger] printed_row(*old(buf), mid, x as int, y as int, man_pattern(phase, 0))
                    && printed_row(mid, *final(buf), x as int, y as int + 1, man_pattern(phase, 1))
        }),
{
    let phase: usize = (((84 + x) / 12) % 2) as usize;
    let pat0 = man_pattern_str(phase, 0);
    let pat1 = man_pattern_str(phase, 1);
    proof {
        reveal_strlit("");
        reveal_strlit("(O)");
        reveal_strlit("Help!");
        reveal_strlit("\\O/");
    }
    move_print(buf, x, y, pat0);
    let ghost mid = *buf;
    move_print(buf, x, y + 1, pat1);
    proof {
        assert(printed_row(*old(buf), mid, x as int, y as int, man_pattern(phase as int, 0))
            && printed_row(mid, *buf, x as int, y as int + 1, man_pattern(phase as int, 1)));
    }
}

/// One smoke puff: where it is, how dissolved it is, and which of the two
/// textures it uses.
pub struct Smoke {
    pub x: i32,
    pub y: i32,
    pub ptrn: usize,
    pub kind: usize,
}

/// The texture of a puff: sixteen dissolution stages of two alternating
/// patterns.
pub open spec fn smoke_texture_spec(kind: int, p: int) -> Seq<char> {
    if kind == 0 {
        if p == 0 || p == 3 {
            "(   )"@
        } else if p == 1 || p == 2 {
            "(    )"@
        } else if p == 4 || p == 5 {
            "(  )"@
        } else if p == 6 || p == 7 {
            "( )"@
        } else if p == 8 || p == 9 {
            "()"@
        } else if p <= 14 {
            "O"@
        } else {
            " "@
        }
    } else {
        if p == 0 || p == 3 {
            "(@@@)"@
        } else if p == 1 || p == 2 {
            "(@@@@)"@
        } else if p == 4 || p == 5 {
            "(@@)"@
        } else if p == 6 || p == 7 {
            "(@)"@
        } else if p == 8 || p == 9 {
            "@@"@
        } else if p <= 14 {
            "@"@
        } else {
            " "@
        }
    }
}

/// The blank row that erases a puff at each stage.
pub open spec fn smoke_eraser_spec(p: int) -> Seq<char> {
    if p == 0 || p == 3 {
        "     "@
    } else if p == 1 || p == 2 {
        "      "@
    } else if p == 4 || p == 5 {
        "    "@
    } else if p == 6 || p == 7 {
        "   "@
    } else if p == 8 || p == 9 {
        "  "@
    } else {
        " "@
    }
}

/// The per-stage horizontal drift of a puff.
pub open spec fn smoke_dx_of(p: int) -> int {
    if p == 0 {
        -2
    } else if p == 1 {
        -1
    } else if p == 2 {
        0
    } else if p <= 7 {
        1
    } else if p <= 12 {
        2
    } else {
        3
    }
}

/// The per-stage vertical rise of a puff.
pub open spec fn smoke_dy_of(p: int) -> int {
    if p == 0 {
        2
    } else if p <= 3 {
        1
    } else {
        0
    }
}

/// No smoke row is wider than six cells.
pub proof fn lemma_smoke_rows_narrow(kind: int, p: int)
    ensures
        smoke_texture_spec(kind, p).len() <= 6,
        smoke_eraser_spec(p).len() <= 6,
{
    reveal_strlit("(   )");
    reveal_strlit("(    )");
    reveal_strlit("(  )");
    reveal_strlit("( )");
    reveal_strlit("()");
    reveal_strlit("O");
    reveal_strlit(" ");
    reveal_strlit("(@@@)");
    reveal_strlit("(@@@@)");
    reveal_strlit("(@@)");
    reveal_strlit("(@)");
    reveal_strlit("@@");
    reveal_strlit("@");
    reveal_strlit("     ");
    reveal_strlit("      ");
    reveal_strlit("    ");
    reveal_strlit("   ");
    reveal_strlit("  ");
}

pub fn smoke_texture(kind: usize, ptrn: usize) -> (r: &'static str)
    requires
        kind < 2,
        ptrn < 16,
    ensures
        r@ == smoke_texture_spec(kind as int, ptrn as int),
{
    if kind == 0 {
        if ptrn == 0 || ptrn == 3 {
            "(   )"
        } else if ptrn == 1 || ptrn == 2 {
            "(    )"
        } else if ptrn == 4 || ptrn == 5 {
            "(  )"
        } else if ptrn == 6 || ptrn == 7 {
            "( )"
        } else if ptrn == 8 || ptrn == 9 {
            "()"
        } else if ptrn <= 14 {
            "O"
        } else {
            " "
        }
    } else {
        if ptrn == 0 || ptrn == 3 {
            "(@@@)"
        } else if ptrn == 1 || ptrn == 2 {
            "(@@@@)"
        } else if ptrn == 4 || ptrn == 5 {
            "(@@)"
        } else if ptrn == 6 || ptrn == 7 {
            "(@)"
        } else if ptrn == 8 || ptrn == 9 {
            "@@"
        } else if ptrn <= 14 {
            "@"
        } else {
            " "
        }
    }
}

pub fn smoke_eraser(ptrn: usize) -> (r: &'static str)
    requires
        ptrn < 16,
    ensures
        r@ == smoke_eraser_spec(ptrn as int),
{
    if ptrn == 0 || ptrn == 3 {
        "     "
    } else if ptrn == 1 || ptrn == 2 {
        "      "
    } else if ptrn == 4 || ptrn == 5 {
        "    "
    } else if ptrn == 6 || ptrn == 7 {
        "   "
    } else if ptrn == 8 || ptrn == 9 {
        "  "
    } else {
        " "
    }
}

/// The vertical rise of a puff at each stage.
pub fn smoke_dy(ptrn: usize) -> (r: i32)
    requires
        ptrn < 16,
    ensures
        r as int == smoke_dy_of(ptrn as int),
        0 <= r <= 2,
{
    if ptrn == 0 {
        2
    } else if ptrn <= 3 {
        1
    } else {
        0
    }
}

/// The horizontal drift of a puff at each stage.
pub fn smoke_dx(ptrn: usize) -> (r: i32)
    requires
        ptrn < 16,
    ensures
        r as int == smoke_dx_of(ptrn as int),
        -2 <= r <= 3,
{
    if ptrn == 0 {
        -2
    } else if ptrn == 1 {
        -1
    } else if ptrn == 2 {
        0
    } else if ptrn <= 7 {
        1
    } else if ptrn <= 12 {
        2
    } else {
        3
    }
}

/// The ring of live smoke puffs behind the funnel.
pub struct SmokeField {
    pub smokes: Vec<Smoke>,
}

/// A puff's next stage.
pub open spec fn next_stage(o: Smoke) -> int {
    if o.ptrn < 15 {
        o.ptrn + 1
    } else {
        15
    }
}

/// Where a puff drifts to, held inside the position band.
pub open spec fn drifted_x(o: Smoke) -> int {
    if -10000000 + 2 <= o.x && o.x <= 10000000 - 3 {
        o.x + smoke_dx_of(o.ptrn as int)
    } else {
        o.x as int
    }
}

pub open spec fn drifted_y(o: Smoke) -> int {
    if o.y >= -10000000 + 2 {
        o.y - smoke_dy_of(o.ptrn as int)
    } else {
        o.y as int
    }
}

/// The erase-then-redraw passes one tick sends to the buffer, one pair per
/// puff in order: each puff's old row is blanked and its drifted,
/// further-dissolved row drawn.
pub open spec fn smoke_draws(oldb: LineBuffer, newb: LineBuffer, puffs: Seq<Smoke>) -> bool
    decreases puffs.len(),
{
    if puffs.len() == 0 {
        newb == oldb
    } else {
        let o = puffs[0];
        exists|m1: LineBuffer|
            #![trigger printed_row(oldb, m1, o.x as int, o.y as int, smoke_eraser_spec(o.ptrn as int))]
            printed_row(oldb, m1, o.x as int, o.y as int, smoke_eraser_spec(o.ptrn as int)) && (
            exists|m2: LineBuffer|
                #![trigger printed_row(m1, m2, drifted_x(o), drifted_y(o), smoke_texture_spec(o.kind as int, next_stage(o)))]
                printed_row(m1, m2, drifted_x(o), drifted_y(o), smoke_texture_spec(
                    o.kind as int,
                    next_stage(o),
                )) && smoke_draws(m2, newb, puffs.skip(1)))
    }
}

impl SmokeField {
    /// Every puff's stage and texture index stays inside its table, and
    /// positions stay in a band around the canvas.
    pub open spec fn wf(&self) -> bool {
        forall|i: int| 0 <= i < self.smokes@.len() ==> {
            &&& (#[trigger] self.smokes@[i]).ptrn < 16
            &&& self.smokes@[i].kind < 2
            &&& -10000000 <= self.smokes@[i].x <= 10000000
            &&& -10000000 <= self.smokes@[i].y <= 10000000
        }
    }

    pub fn new() -> (r: Self)
        ensures
            r.wf(),
            r.smokes@.len() == 0,
    {
        Self { smokes: Vec::new() }
    }

    /// One animation tick at funnel position `(x, y)`.  Only every fourth
    /// column emits: the existing puffs drift by their stage's offsets and
    /// dissolve one stage further, a fresh puff appears at the funnel with
    /// its texture alternating with the count, and the buffer receives
    /// exactly the erase/redraw pass of every puff followed by the fresh
    /// puff's row.
    pub fn advance(&mut self, buf: &mut LineBuffer, x: i32, y: i32)
        requires
            old(self).wf(),
            old(buf).wf(),
            -1000000 <= x <= 1000000,
            -1000000 <= y <= 1000000,
        ensures
            final(self).wf(),
            final(buf).wf(),
            final(buf).state == old(buf).state,
            final(buf).max_lines == old(buf).max_lines,
            x % 4 != 0 ==> *final(self) == *old(self) && *final(buf) == *old(buf),
            x % 4 == 0 ==> {
                &&& final(self).smokes@.len() == old(self).smokes@.len() + 1
                &&& (forall|i: int| 0 <= i < old(self).smokes@.len() ==> {
                    let o = #[trigger] old(self).smokes@[i];
                    let n = final(self).smokes@[i];
                    &&& n.kind == o.kind
                    &&& n.ptrn as int == next_stage(o)
                    &&& n.x as int == drifted_x(o)
                    &&& n.y as int == drifted_y(o)
                })
                &&& final(self).smokes@.last().x == x
                &&& final(self).smokes@.last().y == y
                &&& final(self).smokes@.last().ptrn == 0
                &&& final(self).smokes@.last().kind == (old(self).smokes@.len() as int % 2)
                &&& (exists|mid: LineBuffer|
                    #[trigger] smoke_draws(*old(buf), mid, old(self).smokes@) && printed_row(
                        mid,
                        *final(buf),
                        x as int,
                        y as int,
                        smoke_texture_spec(old(self).smokes@.len() as int % 2, 0),
                    ))
            },
    {
        if x % 4 != 0 {
            return ;
        }
        let ghost olds = self.smokes@;
        self.drift_from(buf, 0);
        let ghost mid = *buf;
        proof {
            assert(olds.skip(0) =~= olds);
        }
        let kind = self.smokes.len() % 2;
        proof {
            lemma_smoke_rows_narrow(kind as int, 0);
        }
        move_print(buf, x, y, smoke_texture(kind, 0));
        self.smokes.push(Smoke { x, y, ptrn: 0, kind });
        proof {
            assert(smoke_draws(*old(buf), mid, olds) && printed_row(
                mid,
                *buf,
                x as int,
                y as int,
                smoke_texture_spec(olds.len() as int % 2, 0),
            ));
        }
    }

    /// Erases, drifts and redraws every puff from index `i` on.
    fn drift_from(&mut self, buf: &mut LineBuffer, i: usize)
        requires
            old(self).wf(),
            old(buf).wf(),
            i <= old(self).smokes@.len(),
        ensures
            final(self).wf(),
            final(buf).wf(),
            final(buf).state == old(buf).state,
            final(buf).max_lines == old(buf).max_lines,
            final(self).smokes@.len() == old(self).smokes@.len(),
            forall|k: int| 0 <= k < i ==> #[trigger] final(self).smokes@[k]
                == old(self).smokes@[k],
            forall|k: int| i <= k < old(self).smokes@.len() ==> {
                let o = #[trigger] old(self).smokes@[k];
                let n = final(self).smokes@[k];
                &&& n.kind == o.kind
                &&& n.ptrn as int == next_stage(o)
                &&& n.x as int == drifted_x(o)
                &&& n.y as int == drifted_y(o)
            },
            smoke_draws(*old(buf), *final(buf), old(self).smokes@.skip(i as int)),
        decreases old(self).smokes@.len() - i,
    {
        let ghost suffix = old(self).smokes@.skip(i as int);
        if i == self.smokes.len() {
            proof {
                assert(suffix =~= Seq::<Smoke>::empty());
            }
            return ;
        }
        let sx = self.smokes[i].x;
        let sy = self.smokes[i].y;
        let sp = self.smokes[i].ptrn;
        let sk = self.smokes[i].kind;
        let ghost o = old(self).smokes@[i as int];
        proof {
            assert(suffix[0] == o);
            lemma_smoke_rows_narrow(sk as int, sp as int);
        }
        move_print(buf, sx, sy, smoke_eraser(sp));
        let ghost m1 = *buf;
        let ny = if sy >= -10000000 + 2 {
            sy - smoke_dy(sp)
        } else {
            sy
        };
        let nx = if -10000000 + 2 <= sx && sx <= 10000000 - 3 {
            sx + smoke_dx(sp)
        } else {
            sx
        };
        let np = if sp < 15 {
            sp + 1
        } else {
            sp
        };
        proof {
            lemma_smoke_rows_narrow(sk as int, np as int);
        }
        let updated = Smoke { x: nx, y: ny, ptrn: np, kind: sk };
        self.smokes.set(i, updated);
        move_print(buf, nx, ny, smoke_texture(sk, np));
        let ghost m2 = *buf;
        let ghost mid_smokes = self.smokes@;
        self.drift_from(buf, i + 1);
        proof {
            assert(mid_smokes == old(self).smokes@.update(i as int, updated));
            assert(self.smokes@.len() == old(self).smokes@.len());
            assert forall|k: int| i <= k < old(self).smokes@.len() implies {
                let ok = #[trigger] old(self).smokes@[k];
                let n = self.smokes@[k];
                &&& n.kind == ok.kind
                &&& n.ptrn as int == next_stage(ok)
                &&& n.x as int == drifted_x(ok)
                &&& n.y as int == drifted_y(ok)
            } by {
                if k == i {
                    assert(self.smokes@[k] == mid_smokes[k]);
                    assert(mid_smokes[k] == updated);
                } else {
                    assert(mid_smokes[k] == old(self).smokes@[k]);
                    assert(self.smokes@[k].kind == mid_smokes[k].kind);
                }
            }
            assert(mid_smokes.skip(i + 1) =~= old(self).smokes@.skip(i + 1));
            assert(smoke_draws(m2, *buf, mid_smokes.skip(i + 1)));
            assert(suffix.skip(1) =~= old(self).smokes@.skip(i + 1));
            assert(smoke_draws(m2, *buf, suffix.skip(1)));
            assert(printed_row(*old(buf), m1, o.x as int, o.y as int, smoke_eraser_spec(
                o.ptrn as int,
            )));
            assert(printed_row(m1, m2, drifted_x(o), drifted_y(o), smoke_texture_spec(
                o.kind as int,
                next_stage(o),
            )));
            assert(printed_row(
                *old(buf),
                m1,
                suffix[0].x as int,
                suffix[0].y as int,
                smoke_eraser_spec(suffix[0].ptrn as int),
            ));
            assert(printed_row(m1, m2, drifted_x(suffix[0]), drifted_y(suffix[0]),
                smoke_texture_spec(suffix[0].kind as int, next_stage(suffix[0]))));
            assert(smoke_draws(*old(buf), *buf, suffix));
        }
    }
}

/// The rows of a block printed one under another, top first.
pub open spec fn printed_block(
    oldb: LineBuffer,
    newb: LineBuffer,
    x: int,
    y: int,
    rows: Seq<Seq<char>>,
) -> bool
    decreases rows.len(),
{
    if rows.len() == 0 {
        newb == oldb
    } else {
        exists|m: LineBuffer|
            #![trigger printed_row(oldb, m, x, y, rows[0])]
            printed_row(oldb, m, x, y, rows[0]) && printed_block(m, newb, x, y + 1, rows.skip(1))
    }
}

/// Prints a block of sprite rows at `(x, y)`, each clipped to the canvas.
pub fn print_block(buf: &mut LineBuffer, rows: &Vec<String>, x: i32, y: i32)
    requires
        old(buf).wf(),
        forall|k: int| 0 <= k < rows@.len() ==> (#[trigger] rows@[k])@.len() <= 1000000,
        rows@.len() <= 1000,
        -1000000 <= y <= 1000000,
    ensures
        final(buf).wf(),
        final(buf).state == old(buf).state,
        final(buf).max_lines == old(buf).max_lines,
        printed_block(*old(buf), *final(buf), x as int, y as int, crate::strutil::views(rows@)),
{
    proof {
        assert(crate::strutil::views(rows@).skip(0) =~= crate::strutil::views(rows@));
    }
    print_block_from(buf, rows, 0, x, y)
}

fn print_block_from(buf: &mut LineBuffer, rows: &Vec<String>, i: usize, x: i32, y: i32)
    requires
        old(buf).wf(),
        i <= rows@.len(),
        forall|k: int| 0 <= k < rows@.len() ==> (#[trigger] rows@[k])@.len() <= 1000000,
        rows@.len() <= 1000,
        -1000000 <= y,
        y as int <= 1000000 + i as int,
    ensures
        final(buf).wf(),
        final(buf).state == old(buf).state,
        final(buf).max_lines == old(buf).max_lines,
        printed_block(
            *old(buf),
            *final(buf),
            x as int,
            y as int,
            crate::strutil::views(rows@).skip(i as int),
        ),
    decreases rows@.len() - i,
{
    let ghost suffix = crate::strutil::views(rows@).skip(i as int);
    if i == rows.len() {
        proof {
            assert(suffix =~= Seq::<Seq<char>>::empty());
        }
        return ;
    }
    proof {
        assert(suffix[0] == rows@[i as int]@);
        assert(suffix.skip(1) =~= crate::strutil::views(rows@).skip(i + 1));
    }
    move_print(buf, x, y, rows[i].as_str());
    let ghost m = *buf;
    print_block_from(buf, rows, i + 1, x, y + 1);
    proof {
        assert(printed_row(*old(buf), m, x as int, y as int, suffix[0]));
        assert(printed_block(m, *buf, x as int, y as int + 1, suffix.skip(1)));
        assert(printed_block(*old(buf), *buf, x as int, y as int, suffix));
    }
}

/// Which pattern frame the engine shows at column `x`: the frame counter
/// steps once per `frame_div` columns and wraps over the frame table.
pub open spec fn frame_of(length: int, x: int, frame_div: int, patterns: int) -> int {
    ((length + x) / frame_div) % patterns
}

/// One tick of an engine sprite at column `x`: nothing once the sprite's
/// trailing edge has left the screen, otherwise the rows of the frame the
/// counter selects, printed at `(x, y)`.
pub fn sprite_step(
    buf: &mut LineBuffer,
    frames: &Vec<Vec<String>>,
    length: i32,
    frame_div: i32,
    x: i32,
    y: i32,
) -> (done: bool)
    requires
        old(buf).wf(),
        1 <= length <= 1000000,
        1 <= frame_div <= 1000000,
        -1000000 <= x <= 1000000,
        -1000000 <= y <= 1000000,
        frames@.len() >= 1,
        forall|f: int| 0 <= f < frames@.len() ==> (#[trigger] frames@[f])@.len() <= 1000,
        forall|f: int, k: int|
            0 <= f < frames@.len() && 0 <= k < frames@[f]@.len() ==> (#[trigger] frames@[f]@[k])@.len()
                <= 1000000,
    ensures
        final(buf).wf(),
        final(buf).state == old(buf).state,
        final(buf).max_lines == old(buf).max_lines,
        done == (x < -length),
        done ==> *final(buf) == *old(buf),
        !done ==> ({
            let fi = frame_of(length as int, x as int, frame_div as int, frames@.len() as int);
            &&& 0 <= fi < frames@.len()
            &&& printed_block(
                *old(buf),
                *final(buf),
                x as int,
                y as int,
                crate::strutil::views(frames@[fi]@),
            )
        }),
{
    if x < -length {
        return true;
    }
    let shifted = length + x;
    let fi = ((shifted / frame_div) as usize) % frames.len();
    proof {
        assert(shifted >= 0);
        assert(fi as int == frame_of(
            length as int,
            x as int,
            frame_div as int,
            frames@.len() as int,
        ));
    }
    print_block(buf, &frames[fi], x, y);
    false
}

/// The row a flying sprite descends to at column `x`: the diagonal the
/// screen size and the sprite's height give it.
pub fn fly_y(x: i32, divisor: i32, height: i32) -> (y: i32)
    requires
        1 <= divisor <= 8,
        -1000000 <= x <= 1000000,
        0 <= height <= 1000,
    ensures
        y as int == trunc_div(x as int, divisor as int) + canvas_rows() - canvas_cols()
            / divisor as int - height,
{
    let q: i32 = if x >= 0 {
        x / divisor
    } else {
        -((-x) / divisor)
    };
    q + 550 - 700 / divisor - height
}

/// Division truncated toward zero, the arithmetic the sprite diagonal
/// uses.
pub open spec fn trunc_div(a: int, b: int) -> int {
    if a >= 0 {
        a / b
    } else {
        -((-a) / b)
    }
}

} // verus!

