//! The link index: built while text is drawn, it maps screen rectangles to
//! the URLs painted there, in integer device pixels.  Hit tests scan in
//! insertion order, so of two overlapping rectangles the first inserted
//! wins; that order is part of the contract.

use vstd::prelude::*;
use crate::strutil::{chars_of, string_range};

verus! {

/// The Unicode white-space characters, as `char::is_whitespace` reports
/// them.
pub open spec fn is_whitespace_char(c: char) -> bool {
    ||| c == ' '
    ||| c == '\t'
    ||| c == '\n'
    ||| c == '\u{b}'
    ||| c == '\u{c}'
    ||| c == '\r'
    ||| c == '\u{85}'
    ||| c == '\u{a0}'
    ||| c == '\u{1680}'
    ||| ('\u{2000}' <= c && c <= '\u{200a}')
    ||| c == '\u{2028}'
    ||| c == '\u{2029}'
    ||| c == '\u{202f}'
    ||| c == '\u{205f}'
    ||| c == '\u{3000}'
}

pub fn whitespace_char(c: char) -> (r: bool)
    ensures
        r == is_whitespace_char(c),
{
    c == ' ' || c == '\t' || c == '\n' || c == '\u{b}' || c == '\u{c}' || c == '\r'
        || c == '\u{85}' || c == '\u{a0}' || c == '\u{1680}'
        || ('\u{2000}' <= c && c <= '\u{200a}') || c == '\u{2028}' || c == '\u{2029}'
        || c == '\u{202f}' || c == '\u{205f}' || c == '\u{3000}'
}

/// A character that ends a URL: white space or a closing bracket.
pub open spec fn is_terminator(c: char) -> bool {
    is_whitespace_char(c) || c == ']'
}

pub fn terminator_char(c: char) -> (r: bool)
    ensures
        r == is_terminator(c),
{
    whitespace_char(c) || c == ']'
}

/// Whether the four characters at `i` spell out `http`.
pub open spec fn has_http_at(text: Seq<char>, i: int) -> bool {
    i + 4 <= text.len() && text[i] == 'h' && text[i + 1] == 't' && text[i + 2] == 't' && text[i
        + 3] == 'p'
}

/// Whether a candidate URL begins with a full scheme.
pub open spec fn has_scheme(url: Seq<char>) -> bool {
    ||| (url.len() >= 7 && url.subrange(0, 7) == "http://"@)
    ||| (url.len() >= 8 && url.subrange(0, 8) == "https://"@)
}

/// The least index `j >= i` holding a terminator, or the text's length.
pub open spec fn first_term(text: Seq<char>, i: int) -> int
    decreases text.len() - i,
{
    if i < 0 || i >= text.len() {
        text.len() as int
    } else if is_terminator(text[i]) {
        i
    } else {
        first_term(text, i + 1)
    }
}

pub proof fn lemma_first_term(text: Seq<char>, i: int)
    requires
        0 <= i <= text.len(),
    ensures
        i <= first_term(text, i) <= text.len(),
        forall|j: int| i <= j < first_term(text, i) ==> !is_terminator(text[j]),
        first_term(text, i) < text.len() ==> is_terminator(text[first_term(text, i)]),
    decreases text.len() - i,
{
    if i < text.len() && !is_terminator(text[i]) {
        lemma_first_term(text, i + 1);
    }
}

/// Every URL in `text` from position `pos` on, each with the column it
/// starts at: a run of `http` is followed to the next terminator; with a
/// full scheme it is a link, otherwise the scan moves on one character and
/// never stalls.
pub open spec fn scan_links(text: Seq<char>, pos: int) -> Seq<(int, Seq<char>)>
    decreases text.len() - pos,
{
    if pos < 0 || pos >= text.len() {
        Seq::empty()
    } else if has_http_at(text, pos) {
        let end = first_term(text, pos);
        if pos + 7 <= end <= text.len() && has_scheme(text.subrange(pos, end)) {
            seq![(pos, text.subrange(pos, end))] + scan_links(text, end)
        } else {
            scan_links(text, pos + 1)
        }
    } else {
        scan_links(text, pos + 1)
    }
}

/// One detected link and its screen rectangle.
#[derive(Debug, Clone)]
pub struct LinkInfo {
    pub url: String,
    pub start_x: i64,
    pub end_x: i64,
    pub y: i64,
    pub line_height: i64,
}

/// Whether the point `(x, y)` falls inside the link's rectangle.
pub open spec fn link_hit(l: LinkInfo, x: int, y: int) -> bool {
    l.start_x <= x <= l.end_x && l.y <= y <= l.y + l.line_height
}

/// The first link in insertion order whose rectangle contains the point.
pub open spec fn first_hit(links: Seq<LinkInfo>, x: int, y: int) -> Option<LinkInfo>
    decreases links.len(),
{
    if links.len() == 0 {
        Option::None
    } else if link_hit(links[0], x, y) {
        Option::Some(links[0])
    } else {
        first_hit(links.skip(1), x, y)
    }
}

pub struct LinkMap {
    pub links: Vec<LinkInfo>,
    pub next_id: u32,
}

/// Coordinate and text-size bounds under which the rectangle arithmetic
/// cannot overflow an `i64`.
pub open spec fn metrics_ok(x: i64, y: i64, char_width: i64, line_height: i64) -> bool {
    &&& -1000000 <= x <= 1000000
    &&& -1000000 <= y <= 1000000
    &&& 0 <= char_width <= 1000000
    &&& 0 <= line_height <= 1000000
}

impl LinkMap {
    pub fn new() -> (r: Self)
        ensures
            r.links@ == Seq::<LinkInfo>::empty(),
            r.next_id == 0,
    {
        Self { links: Vec::new(), next_id: 0 }
    }

    /// Scans one drawn line for URLs and records their rectangles, all
    /// under one freshly allocated line id, which is returned.
    pub fn detect_links(
        &mut self,
        text: &str,
        x: i64,
        y: i64,
        char_width: i64,
        line_height: i64,
    ) -> (id: u32)
        requires
            old(self).next_id < u32::MAX,
            metrics_ok(x, y, char_width, line_height),
            text@.len() <= 1000000,
        ensures
            id == old(self).next_id,
            final(self).next_id == old(self).next_id + 1,
            ({
                let found = scan_links(text@, 0);
                &&& final(self).links@.len() == old(self).links@.len() + found.len()
                &&& forall|i: int| 0 <= i < old(self).links@.len() ==> final(self).links@[i]
                    == old(self).links@[i]
                &&& forall|i: int| 0 <= i < found.len() ==> {
                    let l = #[trigger] final(self).links@[old(self).links@.len() + i];
                    &&& l.url@ == found[i].1
                    &&& l.start_x == x + found[i].0 * char_width
                    &&& l.end_x == x + (found[i].0 + found[i].1.len()) * char_width
                    &&& l.y == y
                    &&& l.line_height == line_height
                }
            }),
    {
        let id = self.next_id;
        self.next_id = self.next_id + 1;
        let chars = chars_of(text);
        let n = chars.len();
        let ghost full = text@;
        let ghost base = self.links@;
        let ghost mut found: Seq<(int, Seq<char>)> = Seq::empty();
        let mut pos: usize = 0;
        proof {
            assert(found + scan_links(full, 0) =~= scan_links(full, 0));
        }
        while pos < n
            invariant
                chars@ == full,
                n == full.len() <= 1000000,
                pos <= n,
                metrics_ok(x, y, char_width, line_height),
                scan_links(full, 0) == found + scan_links(full, pos as int),
                self.links@.len() == base.len() + found.len(),
                forall|i: int| 0 <= i < base.len() ==> self.links@[i] == base[i],
                forall|i: int| 0 <= i < found.len() ==> {
                    let l = #[trigger] self.links@[base.len() + i];
                    &&& l.url@ == found[i].1
                    &&& l.start_x == x + found[i].0 * char_width
                    &&& l.end_x == x + (found[i].0 + found[i].1.len()) * char_width
                    &&& l.y == y
                    &&& l.line_height == line_height
                },
                self.next_id == old(self).next_id + 1,
            decreases n - pos,
        {
            let is_http = pos + 4 <= n && chars[pos] == 'h' && chars[pos + 1] == 't' && chars[pos
                + 2] == 't' && chars[pos + 3] == 'p';
            if is_http {
                // run to the first terminator
                let mut end: usize = pos;
                while end < n && !terminator_char(chars[end])
                    invariant
                        chars@ == full,
                        n == full.len(),
                        pos <= end <= n,
                        forall|j: int| pos <= j < end ==> !is_terminator(full[j]),
                    decreases n - end,
                {
                    end = end + 1;
                }
                proof {
                    lemma_first_term(full, pos as int);
                    if first_term(full, pos as int) < end {
                        assert(!is_terminator(full[first_term(full, pos as int)]));
                    }
                    if first_term(full, pos as int) > end {
                        assert(end < n && is_terminator(full[end as int]));
                    }
                    assert(first_term(full, pos as int) == end);
                }
                // check for a full scheme before the terminator
                let scheme = (pos + 7 <= end && chars[pos + 4] == ':' && chars[pos + 5] == '/'
                    && chars[pos + 6] == '/') || (pos + 8 <= end && chars[pos + 4] == 's'
                    && chars[pos + 5] == ':' && chars[pos + 6] == '/' && chars[pos + 7] == '/');
                proof {
                    let url = full.subrange(pos as int, end as int);
                    reveal_strlit("http://");
                    reveal_strlit("https://");
                    let h7 = "http://"@;
                    let h8 = "https://"@;
                    assert(h7.len() == 7 && h8.len() == 8);
                    assert(h7[4] == ':' && h7[5] == '/' && h7[6] == '/');
                    assert(h8[4] == 's' && h8[5] == ':' && h8[6] == '/' && h8[7] == '/');
                    if scheme {
                        if pos + 7 <= end && full[pos + 4] == ':' && full[pos + 5] == '/'
                            && full[pos + 6] == '/' {
                            assert(url.subrange(0, 7) =~= h7);
                        } else {
                            assert(pos + 8 <= end && full[pos + 4] == 's');
                            assert(url.subrange(0, 8) =~= h8);
                        }
                        assert(has_scheme(url));
                    }
                    if has_scheme(url) {
                        if url.len() >= 7 && url.subrange(0, 7) == h7 {
                            assert(url[4] == url.subrange(0, 7)[4]);
                            assert(url[5] == url.subrange(0, 7)[5]);
                            assert(url[6] == url.subrange(0, 7)[6]);
                            assert(full[pos + 4] == ':' && full[pos + 5] == '/' && full[pos + 6]
                                == '/');
                            assert(scheme);
                        } else {
                            assert(url.len() >= 8 && url.subrange(0, 8) == h8);
                            assert(url[4] == url.subrange(0, 8)[4]);
                            assert(url[5] == url.subrange(0, 8)[5]);
                            assert(url[6] == url.subrange(0, 8)[6]);
                            assert(url[7] == url.subrange(0, 8)[7]);
                            assert(full[pos + 4] == 's' && full[pos + 5] == ':' && full[pos + 6]
                                == '/' && full[pos + 7] == '/');
                            assert(scheme);
                        }
                    }
                    assert(scheme == has_scheme(url));
                }
                if scheme {
                    let url = string_range(&chars, pos, end);
                    proof {
                        assert(0 <= (pos as i64) * char_width <= 1000000000000i64) by (nonlinear_arith)
                            requires
                                0 <= pos <= 1000000,
                                0 <= char_width <= 1000000,
                        ;
                        assert(0 <= ((end - pos) as i64) * char_width <= 1000000000000i64)
                            by (nonlinear_arith)
                            requires
                                0 <= end - pos <= 1000000,
                                0 <= char_width <= 1000000,
                        ;
                        let p = pos as int;
                        let e = end as int;
                        let c = char_width as int;
                        assert(p * c + (e - p) * c == e * c) by (nonlinear_arith);
                    }
                    let start_x: i64 = x + (pos as i64) * char_width;
                    let end_x: i64 = start_x + ((end - pos) as i64) * char_width;
                    self.links.push(LinkInfo { url, start_x, end_x, y, line_height });
                    proof {
                        found = found + seq![(pos as int, full.subrange(pos as int, end as int))];
                        assert(scan_links(full, pos as int) == seq![
                            (pos as int, full.subrange(pos as int, end as int)),
                        ] + scan_links(full, end as int));
                        assert(scan_links(full, 0) =~= found + scan_links(full, end as int));
                    }
                    pos = end;
                } else {
                    proof {
                        assert(scan_links(full, pos as int) == scan_links(full, pos + 1));
                    }
                    pos = pos + 1;
                }
            } else {
                proof {
                    assert(!has_http_at(full, pos as int));
                    assert(scan_links(full, pos as int) == scan_links(full, pos + 1));
                }
                pos = pos + 1;
            }
        }
        proof {
            assert(scan_links(full, n as int) == Seq::<(int, Seq<char>)>::empty());
            assert(found + Seq::<(int, Seq<char>)>::empty() =~= found);
        }
        id
    }

    /// Finds the URL under the point, if any: the first indexed rectangle,
    /// in insertion order, that contains it.
    pub fn find_link(&self, x: i64, y: i64) -> (r: Option<String>)
        ensures
            match r {
                Option::Some(u) => {
                    &&& first_hit(self.links@, x as int, y as int) is Some
                    &&& u@ == first_hit(self.links@, x as int, y as int)->0.url@
                },
                Option::None => first_hit(self.links@, x as int, y as int) is None,
            },
    {
        let mut i: usize = 0;
        proof {
            assert(self.links@.skip(0) =~= self.links@);
        }
        while i < self.links.len()
            invariant
                i <= self.links@.len(),
                first_hit(self.links@, x as int, y as int) == first_hit(
                    self.links@.skip(i as int),
                    x as int,
                    y as int,
                ),
            decreases self.links@.len() - i,
        {
            let l = &self.links[i];
            let hit = l.start_x <= x && x <= l.end_x && l.y <= y && (y as i128) <= (l.y as i128)
                + (l.line_height as i128);
            proof {
                assert(self.links@.skip(i as int)[0] == self.links@[i as int]);
                assert(self.links@.skip(i as int).skip(1) =~= self.links@.skip(i + 1));
            }
            if hit {
                return Some(l.url.clone());
            }
            i = i + 1;
        }
        proof {
            assert(self.links@.skip(self.links@.len() as int)
                =~= Seq::<LinkInfo>::empty());
        }
        None
    }

    /// Drops every entry and resets id allocation; called on full clears.
    pub fn clear(&mut self)
        ensures
            final(self).links@ == Seq::<LinkInfo>::empty(),
            final(self).next_id == 0,
    {
        self.links.clear();
        self.next_id = 0;
    }
}

} // verus!
