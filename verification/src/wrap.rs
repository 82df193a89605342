//! The text wrapper: reflows one logical line into chunks of at most
//! `max_width` codepoints, breaking at the last space strictly inside a
//! chunk when one exists and hard-cutting otherwise.  A space that a soft
//! break lands on is consumed; a hard cut loses nothing.

use vstd::prelude::*;
use crate::strutil::{chars_of, string_range};

verus! {

/// Widths of zero columns are clamped to one column.
pub open spec fn clamp_width(w: int) -> int {
    if w < 1 {
        1
    } else {
        w
    }
}

/// The largest index `i` with `1 <= i < end` and `s[i] == ' '`, or 0 when
/// there is none.  Index 0 is never a break point: breaking there would
/// emit an empty chunk.
pub open spec fn last_space_before(s: Seq<char>, end: int) -> int
    decreases end,
{
    if end <= 1 {
        0
    } else if s[end - 1] == ' ' {
        end - 1
    } else {
        last_space_before(s, end - 1)
    }
}

pub proof fn lemma_last_space_before(s: Seq<char>, end: int)
    ensures
        last_space_before(s, end) == 0 ==> forall|i: int| 1 <= i < end ==> s[i] != ' ',
        last_space_before(s, end) != 0 ==> 1 <= last_space_before(s, end) < end
            && s[last_space_before(s, end)] == ' '
            && forall|i: int| last_space_before(s, end) < i < end ==> s[i] != ' ',
    decreases end,
{
    if end <= 1 {
    } else if s[end - 1] == ' ' {
    } else {
        lemma_last_space_before(s, end - 1);
    }
}

/// `last_space_before` is the unique value with its characteristic shape;
/// this direction lets executable scans conclude what they computed.
pub proof fn lemma_last_space_before_unique(s: Seq<char>, end: int, x: int)
    requires
        x == 0 ==> forall|i: int| 1 <= i < end ==> s[i] != ' ',
        x != 0 ==> 1 <= x < end && s[x] == ' ' && forall|i: int| x < i < end ==> s[i] != ' ',
    ensures
        last_space_before(s, end) == x,
    decreases end,
{
    if end <= 1 {
    } else if s[end - 1] == ' ' {
        assert(x == end - 1);
    } else {
        lemma_last_space_before_unique(s, end - 1, x);
    }
}

/// The wrapping of `s` at width `w`, each chunk paired with whether the
/// break after it consumed a separating space.  A break lands on the last
/// space at or before the chunk boundary (never at the chunk's start), and
/// that space is consumed; without one the chunk is hard-cut at the full
/// width.
pub open spec fn wrap_model(s: Seq<char>, w: int) -> Seq<(Seq<char>, bool)>
    decreases s.len(),
{
    if w < 1 {
        Seq::empty()
    } else if s.len() <= w {
        seq![(s, false)]
    } else {
        let bp = last_space_before(s, w + 1);
        if 1 <= bp && bp <= w {
            seq![(s.subrange(0, bp), true)] + (if bp + 1 < s.len() {
                wrap_model(s.skip(bp + 1), w)
            } else {
                Seq::<(Seq<char>, bool)>::empty()
            })
        } else {
            seq![(s.subrange(0, w), false)] + wrap_model(s.skip(w), w)
        }
    }
}

/// The chunks alone, as the wrapper returns them.
pub open spec fn wrap_chunks(s: Seq<char>, w: int) -> Seq<Seq<char>> {
    wrap_model(s, w).map_values(|p: (Seq<char>, bool)| p.0)
}

/// Joins wrapped chunks back together, re-inserting one space wherever a
/// soft break consumed one.
pub open spec fn rejoin(ps: Seq<(Seq<char>, bool)>) -> Seq<char>
    decreases ps.len(),
{
    if ps.len() == 0 {
        Seq::empty()
    } else {
        ps[0].0 + (if ps[0].1 {
            seq![' ']
        } else {
            Seq::<char>::empty()
        }) + rejoin(ps.skip(1))
    }
}

/// Wrapping round-trip: re-joining the chunks of `wrap_model(s, w)`, with a
/// single space where a soft break was taken, reconstructs `s` exactly.
pub proof fn lemma_wrap_round_trip(s: Seq<char>, w: int)
    requires
        w >= 1,
    ensures
        rejoin(wrap_model(s, w)) == s,
    decreases s.len(),
{
    if s.len() <= w {
        let ps = wrap_model(s, w);
        assert(ps.skip(1) =~= Seq::<(Seq<char>, bool)>::empty());
        assert(rejoin(ps.skip(1)) == Seq::<char>::empty());
        assert(rejoin(ps) =~= s);
    } else {
        let bp = last_space_before(s, w + 1);
        lemma_last_space_before(s, w + 1);
        if bp != 0 {
            let ps = wrap_model(s, w);
            assert(s[bp] == ' ');
            if bp + 1 < s.len() {
                let rest = s.skip(bp + 1);
                lemma_wrap_round_trip(rest, w);
                assert(ps.skip(1) =~= wrap_model(rest, w));
                assert(rejoin(ps.skip(1)) == rest);
                assert(rejoin(ps) =~= s);
            } else {
                assert(ps.skip(1) =~= Seq::<(Seq<char>, bool)>::empty());
                assert(rejoin(ps.skip(1)) == Seq::<char>::empty());
                assert(rejoin(ps) =~= s);
            }
        } else {
            let rest = s.skip(w);
            lemma_wrap_round_trip(rest, w);
            let ps = wrap_model(s, w);
            assert(ps.skip(1) =~= wrap_model(rest, w));
            assert(rejoin(ps.skip(1)) == rest);
            assert(rejoin(ps) =~= s);
        }
    }
}

/// Wrapping boundary: no chunk is longer than `w` codepoints, at least one
/// chunk always comes back, and no chunk is empty unless `s` itself is.
pub proof fn lemma_wrap_bounds(s: Seq<char>, w: int)
    requires
        w >= 1,
    ensures
        wrap_model(s, w).len() >= 1,
        forall|i: int| 0 <= i < wrap_model(s, w).len() ==> #[trigger] wrap_model(
            s,
            w,
        )[i].0.len() <= w,
        s.len() > 0 ==> forall|i: int| 0 <= i < wrap_model(s, w).len() ==> #[trigger] wrap_model(
            s,
            w,
        )[i].0.len() >= 1,
    decreases s.len(),
{
    if s.len() <= w {
    } else {
        let bp = last_space_before(s, w + 1);
        lemma_last_space_before(s, w + 1);
        if bp != 0 {
            if bp + 1 < s.len() {
                lemma_wrap_bounds(s.skip(bp + 1), w);
            }
        } else {
            lemma_wrap_bounds(s.skip(w), w);
        }
    }
}

/// Wraps `content` to `max_width` columns, counting codepoints.  A width of
/// zero is treated as one.
pub fn wrap(content: &str, max_width: usize) -> (r: Vec<String>)
    ensures
        r@.map_values(|x: String| x@) == wrap_chunks(content@, clamp_width(max_width as int)),
{
    let w: usize = if max_width == 0 {
        1
    } else {
        max_width
    };
    let chars = chars_of(content);
    let len = chars.len();
    let mut out: Vec<String> = Vec::new();
    if len <= w {
        out.push(content.to_owned());
        proof {
            assert(out@.map_values(|x: String| x@) =~= wrap_chunks(
                content@,
                clamp_width(max_width as int),
            ));
        }
        return out;
    }
    let ghost full = content@;
    let ghost mut done: Seq<(Seq<char>, bool)> = Seq::empty();
    let mut start: usize = 0;
    proof {
        assert(full.skip(0) =~= full);
        assert(done + wrap_model(full, w as int) =~= wrap_model(full, w as int));
    }
    while start < len
        invariant
            1 <= w,
            chars@ == full,
            len == full.len(),
            start <= len,
            wrap_model(full, w as int) == done + (if start < len {
                wrap_model(full.skip(start as int), w as int)
            } else {
                Seq::<(Seq<char>, bool)>::empty()
            }),
            out@.len() == done.len(),
            forall|i: int| 0 <= i < done.len() ==> (#[trigger] out@[i])@ == done[i].0,
        decreases len - start,
    {
        let ghost rem = full.skip(start as int);
        if len - start <= w {
            out.push(string_range(&chars, start, len));
            proof {
                assert(rem =~= full.subrange(start as int, len as int));
                done = done + seq![(rem, false)];
                assert(wrap_model(rem, w as int) == seq![(rem, false)]);
                assert(done + Seq::<(Seq<char>, bool)>::empty() =~= done);
                assert(wrap_model(full, w as int) =~= done);
            }
            start = len;
        } else {
            let end = start + w;
            // find the last space in (start, end], the boundary included
            let mut bp: usize = 0;
            let mut j = start + 1;
            while j <= end
                invariant
                    start + 1 <= j <= end + 1,
                    end < len == chars@.len(),
                    bp == 0 ==> forall|k: int| start < k < j ==> chars@[k] != ' ',
                    bp != 0 ==> start < bp < j && chars@[bp as int] == ' '
                        && forall|k: int| bp < k < j ==> chars@[k] != ' ',
                decreases end + 1 - j,
            {
                if chars[j] == ' ' {
                    bp = j;
                }
                j = j + 1;
            }
            proof {
                let rel = if bp == 0 {
                    0int
                } else {
                    bp - start
                };
                assert forall|i: int| rel != 0 && rel < i < w + 1 implies rem[i] != ' ' by {
                    assert(rem[i] == full[start + i]);
                }
                assert forall|i: int| rel == 0 && 1 <= i < w + 1 implies rem[i] != ' ' by {
                    assert(rem[i] == full[start + i]);
                }
                if rel != 0 {
                    assert(rem[rel] == full[bp as int]);
                }
                lemma_last_space_before_unique(rem, w as int + 1, rel);
            }
            if bp != 0 {
                out.push(string_range(&chars, start, bp));
                proof {
                    let chunk = rem.subrange(0, bp - start);
                    assert(chunk =~= full.subrange(start as int, bp as int));
                    done = done + seq![(chunk, true)];
                    if bp + 1 < len {
                        assert(rem.skip(bp - start + 1) =~= full.skip(bp + 1));
                        assert(wrap_model(rem, w as int) == seq![(chunk, true)] + wrap_model(
                            full.skip(bp + 1),
                            w as int,
                        ));
                        assert(wrap_model(full, w as int) =~= done + wrap_model(
                            full.skip(bp + 1),
                            w as int,
                        ));
                    } else {
                        assert(wrap_model(rem, w as int) == seq![(chunk, true)]);
                        assert(wrap_model(full, w as int) =~= done);
                    }
                }
                start = bp + 1;
            } else {
                out.push(string_range(&chars, start, end));
                proof {
                    let chunk = rem.subrange(0, w as int);
                    assert(chunk =~= full.subrange(start as int, end as int));
                    assert(rem.skip(w as int) =~= full.skip(end as int));
                    assert(wrap_model(rem, w as int) == seq![(chunk, false)] + wrap_model(
                        full.skip(end as int),
                        w as int,
                    ));
                    done = done + seq![(chunk, false)];
                    assert(wrap_model(full, w as int) =~= done + wrap_model(
                        full.skip(end as int),
                        w as int,
                    ));
                }
                start = end;
            }
        }
    }
    proof {
        assert(out@.map_values(|x: String| x@) =~= wrap_chunks(
            content@,
            clamp_width(max_width as int),
        ));
    }
    out
}

} // verus!
