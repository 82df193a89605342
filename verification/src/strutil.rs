//! Small verified helpers for working with strings as sequences of
//! codepoints, plus the one trusted call into `String::push`.

use vstd::prelude::*;

verus! {

/// Relies on String::push: appends exactly the given character.
#[verifier::external_body]
pub fn push_char(s: &mut String, c: char)
    ensures
        final(s)@ == old(s)@.push(c),
{
    s.push(c)
}

/// Collects the codepoints of a string slice into a vector.
pub fn chars_of(s: &str) -> (r: Vec<char>)
    ensures
        r@ == s@,
{
    let n = s.unicode_len();
    let mut r: Vec<char> = Vec::new();
    let mut i: usize = 0;
    while i < n
        invariant
            n == s@.len(),
            i <= n,
            r@ == s@.subrange(0, i as int),
        decreases n - i,
    {
        r.push(s.get_char(i));
        i = i + 1;
        proof {
            assert(r@ =~= s@.subrange(0, i as int));
        }
    }
    proof {
        assert(r@ =~= s@);
    }
    r
}

/// Builds a string from the codepoints `cs[from..to]`.
pub fn string_range(cs: &Vec<char>, from: usize, to: usize) -> (r: String)
    requires
        from <= to <= cs@.len(),
    ensures
        r@ == cs@.subrange(from as int, to as int),
{
    let mut r = String::new();
    let mut i: usize = from;
    while i < to
        invariant
            from <= i <= to <= cs@.len(),
            r@ == cs@.subrange(from as int, i as int),
        decreases to - i,
    {
        push_char(&mut r, cs[i]);
        i = i + 1;
        proof {
            assert(r@ =~= cs@.subrange(from as int, i as int));
        }
    }
    r
}

/// Compares two string slices codepoint by codepoint.
pub fn str_eq(a: &str, b: &str) -> (r: bool)
    ensures
        r == (a@ == b@),
{
    let na = a.unicode_len();
    let nb = b.unicode_len();
    if na != nb {
        return false;
    }
    let mut i: usize = 0;
    while i < na
        invariant
            na == a@.len(),
            na == b@.len(),
            i <= na,
            forall|j: int| 0 <= j < i ==> a@[j] == b@[j],
        decreases na - i,
    {
        if a.get_char(i) != b.get_char(i) {
            return false;
        }
        i = i + 1;
    }
    proof {
        assert(a@ =~= b@);
    }
    true
}

/// The Unicode view of a sequence of strings.
pub open spec fn views(ps: Seq<String>) -> Seq<Seq<char>> {
    ps.map_values(|s: String| s@)
}

/// The first index at or after `i` holding a non-whitespace character.
pub open spec fn next_non_ws(s: Seq<char>, i: int) -> int
    decreases s.len() - i,
{
    if i < 0 || i >= s.len() {
        s.len() as int
    } else if crate::linkmap::is_whitespace_char(s[i]) {
        next_non_ws(s, i + 1)
    } else {
        i
    }
}

/// The first index at or after `i` holding a whitespace character.
pub open spec fn next_ws(s: Seq<char>, i: int) -> int
    decreases s.len() - i,
{
    if i < 0 || i >= s.len() {
        s.len() as int
    } else if crate::linkmap::is_whitespace_char(s[i]) {
        i
    } else {
        next_ws(s, i + 1)
    }
}

pub proof fn lemma_next_ws_bounds(s: Seq<char>, i: int)
    requires
        0 <= i <= s.len(),
    ensures
        i <= next_non_ws(s, i) <= s.len(),
        i <= next_ws(s, i) <= s.len(),
        forall|j: int| i <= j < next_non_ws(s, i) ==> crate::linkmap::is_whitespace_char(s[j]),
        next_non_ws(s, i) < s.len() ==> !crate::linkmap::is_whitespace_char(s[next_non_ws(s, i)]),
        forall|j: int| i <= j < next_ws(s, i) ==> !crate::linkmap::is_whitespace_char(s[j]),
        next_ws(s, i) < s.len() ==> crate::linkmap::is_whitespace_char(s[next_ws(s, i)]),
    decreases s.len() - i,
{
    if i < s.len() {
        lemma_next_ws_bounds(s, i + 1);
    }
}

/// The words of `s`: maximal runs of non-whitespace characters, in order.
pub open spec fn split_ws(s: Seq<char>, i: int) -> Seq<Seq<char>>
    decreases s.len() - i,
{
    if i < 0 || i >= s.len() {
        Seq::empty()
    } else if crate::linkmap::is_whitespace_char(s[i]) {
        split_ws(s, i + 1)
    } else {
        let e = next_ws(s, i);
        if i < e <= s.len() {
            seq![s.subrange(i, e)] + split_ws(s, e)
        } else {
            Seq::empty()
        }
    }
}

/// Splits a string into its whitespace-separated words.
pub fn split_ws_vec(s: &str) -> (r: Vec<String>)
    ensures
        views(r@) == split_ws(s@, 0),
{
    let chars = chars_of(s);
    let n = chars.len();
    let ghost full = s@;
    let mut r: Vec<String> = Vec::new();
    let mut i: usize = 0;
    proof {
        assert(views(r@) + split_ws(full, 0) =~= split_ws(full, 0));
    }
    while i < n
        invariant
            chars@ == full,
            n == full.len(),
            i <= n,
            views(r@) + split_ws(full, i as int) == split_ws(full, 0),
        decreases n - i,
    {
        if crate::linkmap::whitespace_char(chars[i]) {
            i = i + 1;
        } else {
            let mut j = i;
            while j < n && !crate::linkmap::whitespace_char(chars[j])
                invariant
                    chars@ == full,
                    n == full.len(),
                    i <= j <= n,
                    forall|k: int| i <= k < j ==> !crate::linkmap::is_whitespace_char(full[k]),
                decreases n - j,
            {
                j = j + 1;
            }
            proof {
                lemma_next_ws_bounds(full, i as int);
                if next_ws(full, i as int) < j {
                    assert(crate::linkmap::is_whitespace_char(full[next_ws(full, i as int)]));
                }
                if next_ws(full, i as int) > j {
                    assert(j < n && crate::linkmap::is_whitespace_char(full[j as int]));
                }
                assert(next_ws(full, i as int) == j);
            }
            let ghost prev = r@;
            r.push(string_range(&chars, i, j));
            proof {
                prev.lemma_push_map_commute(|x: String| x@, r@.last());
                assert(views(r@) =~= views(prev) + seq![full.subrange(i as int, j as int)]);
                assert(split_ws(full, i as int) == seq![full.subrange(i as int, j as int)]
                    + split_ws(full, j as int));
                assert(views(r@) + split_ws(full, j as int) =~= split_ws(full, 0));
            }
            i = j;
        }
    }
    proof {
        assert(split_ws(full, n as int) == Seq::<Seq<char>>::empty());
        assert(views(r@) + Seq::<Seq<char>>::empty() =~= views(r@));
    }
    r
}

/// `s` with leading and trailing whitespace removed.
pub open spec fn trim_spec(s: Seq<char>) -> Seq<char> {
    let a = next_non_ws(s, 0);
    if a == s.len() {
        Seq::empty()
    } else {
        let b = last_non_ws(s, s.len() as int - 1);
        s.subrange(a, b + 1)
    }
}

/// The last index at or before `i` holding a non-whitespace character, or
/// -1 when there is none.
pub open spec fn last_non_ws(s: Seq<char>, i: int) -> int
    decreases i + 1,
{
    if i < 0 || i >= s.len() {
        -1
    } else if crate::linkmap::is_whitespace_char(s[i]) {
        last_non_ws(s, i - 1)
    } else {
        i
    }
}

pub proof fn lemma_last_non_ws(s: Seq<char>, i: int)
    requires
        -1 <= i < s.len(),
    ensures
        -1 <= last_non_ws(s, i) <= i,
        forall|j: int| last_non_ws(s, i) < j <= i ==> crate::linkmap::is_whitespace_char(s[j]),
        last_non_ws(s, i) >= 0 ==> !crate::linkmap::is_whitespace_char(s[last_non_ws(s, i)]),
    decreases i + 1,
{
    if 0 <= i && crate::linkmap::is_whitespace_char(s[i]) {
        lemma_last_non_ws(s, i - 1);
    }
}

/// Trims leading and trailing whitespace.
pub fn trim(s: &str) -> (r: String)
    ensures
        r@ == trim_spec(s@),
{
    let chars = chars_of(s);
    let n = chars.len();
    let ghost full = s@;
    let mut a: usize = 0;
    while a < n && crate::linkmap::whitespace_char(chars[a])
        invariant
            chars@ == full,
            n == full.len(),
            a <= n,
            forall|k: int| 0 <= k < a ==> crate::linkmap::is_whitespace_char(full[k]),
        decreases n - a,
    {
        a = a + 1;
    }
    proof {
        lemma_next_ws_bounds(full, 0);
        if next_non_ws(full, 0) < a {
            assert(!crate::linkmap::is_whitespace_char(full[next_non_ws(full, 0)]));
        }
        if next_non_ws(full, 0) > a {
            assert(a < n && !crate::linkmap::is_whitespace_char(full[a as int]));
        }
        assert(next_non_ws(full, 0) == a);
    }
    if a == n {
        proof {
            assert(trim_spec(full) == Seq::<char>::empty());
        }
        return String::new();
    }
    let mut b: usize = n - 1;
    while b > a && crate::linkmap::whitespace_char(chars[b])
        invariant
            chars@ == full,
            n == full.len(),
            a <= b < n,
            forall|k: int| b < k < n ==> crate::linkmap::is_whitespace_char(full[k]),
        decreases b,
    {
        b = b - 1;
    }
    proof {
        lemma_last_non_ws(full, n as int - 1);
        assert(!crate::linkmap::is_whitespace_char(full[a as int]));
        if last_non_ws(full, n as int - 1) < b {
            assert(crate::linkmap::is_whitespace_char(full[b as int]));
            assert(b == a);
        }
        if last_non_ws(full, n as int - 1) > b {
            assert(crate::linkmap::is_whitespace_char(full[last_non_ws(full, n as int - 1)]));
        }
        assert(last_non_ws(full, n as int - 1) == b);
    }
    string_range(&chars, a, b + 1)
}

/// Whether `needle` occurs inside `hay`.
pub open spec fn contains_sub(hay: Seq<char>, needle: Seq<char>) -> bool {
    exists|i: int|
        0 <= i && i + needle.len() <= hay.len() && #[trigger] hay.subrange(i, i + needle.len())
            == needle
}

/// Substring search by direct comparison at every position.
pub fn contains_str(hay: &str, needle: &str) -> (r: bool)
    ensures
        r == contains_sub(hay@, needle@),
{
    let h = chars_of(hay);
    let nd = chars_of(needle);
    let hn = h.len();
    let nn = nd.len();
    if nn > hn {
        proof {
            assert(!contains_sub(hay@, needle@));
        }
        return false;
    }
    if nn == 0 {
        proof {
            assert(hay@.subrange(0, 0 + needle@.len() as int) =~= needle@);
        }
        return true;
    }
    let mut i: usize = 0;
    while i <= hn - nn
        invariant
            h@ == hay@,
            nd@ == needle@,
            hn == hay@.len(),
            nn == needle@.len(),
            1 <= nn <= hn,
            i <= hn - nn + 1,
            forall|p: int| 0 <= p < i ==> #[trigger] hay@.subrange(p, p + nn as int) != needle@,
        decreases hn + 1 - nn - i,
    {
        let mut j: usize = 0;
        let mut ok = true;
        while j < nn
            invariant
                h@ == hay@,
                nd@ == needle@,
                hn == hay@.len(),
                nn == needle@.len(),
                i + nn <= hn,
                j <= nn,
                ok ==> forall|k: int| 0 <= k < j ==> hay@[i + k] == needle@[k],
                !ok ==> hay@.subrange(i as int, i + nn as int) != needle@,
            decreases nn - j,
        {
            proof {
                if h@[i + j] != nd@[j as int] {
                    assert(hay@.subrange(i as int, i + nn as int)[j as int] == hay@[i + j]);
                }
            }
            if h[i + j] != nd[j] {
                ok = false;
                j = nn;
            } else {
                j = j + 1;
            }
        }
        if ok {
            proof {
                assert(hay@.subrange(i as int, i + nn as int) =~= needle@);
            }
            return true;
        }
        i = i + 1;
    }
    proof {
        assert forall|p: int| 0 <= p && p + needle@.len() <= hay@.len() implies #[trigger] hay@.subrange(
            p,
            p + needle@.len(),
        ) != needle@ by {
            assert(p < i);
        }
    }
    false
}

/// Whether `s` begins with `prefix`.
pub open spec fn starts_with_spec(s: Seq<char>, prefix: Seq<char>) -> bool {
    prefix.len() <= s.len() && s.subrange(0, prefix.len() as int) == prefix
}

pub fn starts_with(s: &str, prefix: &str) -> (r: bool)
    ensures
        r == starts_with_spec(s@, prefix@),
{
    let sc = chars_of(s);
    let pc = chars_of(prefix);
    if pc.len() > sc.len() {
        return false;
    }
    let mut j: usize = 0;
    while j < pc.len()
        invariant
            sc@ == s@,
            pc@ == prefix@,
            pc@.len() <= sc@.len(),
            j <= pc@.len(),
            forall|k: int| 0 <= k < j ==> s@[k] == prefix@[k],
        decreases pc@.len() - j,
    {
        proof {
            if sc@[j as int] != pc@[j as int] {
                assert(s@.subrange(0, prefix@.len() as int)[j as int] == s@[j as int]);
            }
        }
        if sc[j] != pc[j] {
            return false;
        }
        j = j + 1;
    }
    proof {
        assert(s@.subrange(0, prefix@.len() as int) =~= prefix@);
    }
    true
}

/// The decimal digits of `n`, most significant first.
pub open spec fn dec_digits(n: int) -> Seq<char>
    decreases n,
{
    if n <= 0 {
        Seq::empty()
    } else {
        dec_digits(n / 10).push(digit_char(n % 10))
    }
}

/// The usual decimal rendering: digits, or one zero.
pub open spec fn dec_str(n: int) -> Seq<char> {
    if n == 0 {
        seq!['0']
    } else {
        dec_digits(n)
    }
}

pub open spec fn digit_char(d: int) -> char {
    if d == 0 {
        '0'
    } else if d == 1 {
        '1'
    } else if d == 2 {
        '2'
    } else if d == 3 {
        '3'
    } else if d == 4 {
        '4'
    } else if d == 5 {
        '5'
    } else if d == 6 {
        '6'
    } else if d == 7 {
        '7'
    } else if d == 8 {
        '8'
    } else {
        '9'
    }
}

fn digit_to_char(d: u64) -> (c: char)
    requires
        d < 10,
    ensures
        c == digit_char(d as int),
{
    if d == 0 {
        '0'
    } else if d == 1 {
        '1'
    } else if d == 2 {
        '2'
    } else if d == 3 {
        '3'
    } else if d == 4 {
        '4'
    } else if d == 5 {
        '5'
    } else if d == 6 {
        '6'
    } else if d == 7 {
        '7'
    } else if d == 8 {
        '8'
    } else {
        '9'
    }
}

/// Renders `n` in decimal.
pub fn u64_to_dec(n: u64) -> (r: String)
    ensures
        r@ == dec_str(n as int),
{
    if n == 0 {
        proof {
            reveal_strlit("0");
            assert("0"@ =~= seq!['0']);
        }
        return "0".to_owned();
    }
    let mut digits: Vec<char> = Vec::new();
    let mut m = n;
    while m > 0
        invariant
            m <= n,
            dec_digits(n as int) == dec_digits(m as int) + digits@.reverse(),
        decreases m,
    {
        let d = m % 10;
        digits.push(digit_to_char(d));
        proof {
            assert(dec_digits(m as int) == dec_digits(m as int / 10).push(
                digit_char(m as int % 10),
            ));
            assert(dec_digits(m as int / 10) + digits@.reverse() =~= dec_digits(
                m as int / 10,
            ).push(digit_char(m as int % 10)) + digits@.drop_last().reverse());
        }
        m = m / 10;
    }
    proof {
        assert(dec_digits(0) + digits@.reverse() =~= digits@.reverse());
    }
    let mut r = String::new();
    let mut i: usize = digits.len();
    while i > 0
        invariant
            i <= digits@.len(),
            r@ == digits@.reverse().subrange(0, digits@.len() - i),
        decreases i,
    {
        i = i - 1;
        push_char(&mut r, digits[i]);
        proof {
            assert(digits@.reverse()[digits@.len() - i - 1] == digits@[i as int]);
            assert(r@ =~= digits@.reverse().subrange(0, digits@.len() - i));
        }
    }
    proof {
        assert(digits@.reverse().subrange(0, digits@.len() as int) =~= digits@.reverse());
    }
    r
}

/// The Unicode views of a sequence of string slices.
pub open spec fn views_s(ps: Seq<&str>) -> Seq<Seq<char>> {
    ps.map_values(|s: &str| s@)
}

/// The pieces joined with the separator between each pair.
pub open spec fn join_sep(parts: Seq<Seq<char>>, sep: Seq<char>) -> Seq<char>
    decreases parts.len(),
{
    if parts.len() == 0 {
        Seq::empty()
    } else if parts.len() == 1 {
        parts[0]
    } else {
        parts[0] + sep + join_sep(parts.skip(1), sep)
    }
}

/// Joins string slices with a separator.
pub fn join_strs(parts: &[&str], sep: &str) -> (r: String)
    ensures
        r@ == join_sep(views_s(parts@), sep@),
{
    let mut r = String::new();
    let mut i: usize = 0;
    if parts.len() == 0 {
        return r;
    }
    while i < parts.len()
        invariant
            i <= parts@.len(),
            1 <= parts@.len(),
            join_sep(views_s(parts@), sep@) == r@ + (if i < parts@.len() {
                if i > 0 {
                    sep@ + join_sep(views_s(parts@).skip(i as int), sep@)
                } else {
                    join_sep(views_s(parts@), sep@)
                }
            } else {
                Seq::<char>::empty()
            }),
            i == 0 ==> r@ == Seq::<char>::empty(),
        decreases parts@.len() - i,
    {
        let ghost before = r@;
        if i > 0 {
            r.append(sep);
        }
        r.append(parts[i]);
        proof {
            let vs = views_s(parts@);
            assert(vs[i as int] == parts@[i as int]@);
            assert(vs.skip(i as int)[0] == vs[i as int]);
            assert(vs.skip(i as int).skip(1) =~= vs.skip(i + 1));
            if i == 0 {
                if parts@.len() == 1 {
                    assert(join_sep(vs, sep@) == vs[0]);
                    assert(r@ + Seq::<char>::empty() =~= r@);
                } else {
                    assert(vs.skip(0) =~= vs);
                    assert(join_sep(vs, sep@) == vs[0] + sep@ + join_sep(vs.skip(1), sep@));
                }
            } else {
                if i + 1 < parts@.len() {
                    assert(join_sep(vs.skip(i as int), sep@) == vs[i as int] + sep@ + join_sep(
                        vs.skip(i + 1),
                        sep@,
                    ));
                } else {
                    assert(join_sep(vs.skip(i as int), sep@) == vs[i as int]);
                }
            }
        }
        i = i + 1;
    }
    r
}

/// Concatenates two strings.
pub fn cat2(a: &str, b: &str) -> (r: String)
    ensures
        r@ == a@ + b@,
{
    a.to_owned().concat(b)
}

/// Concatenates three strings.
pub fn cat3(a: &str, b: &str, c: &str) -> (r: String)
    ensures
        r@ == a@ + b@ + c@,
{
    a.to_owned().concat(b).concat(c)
}

/// `n` copies of one character.
pub open spec fn repeat_char(c: char, n: int) -> Seq<char>
    decreases n,
{
    if n <= 0 {
        Seq::empty()
    } else {
        repeat_char(c, n - 1).push(c)
    }
}

pub fn repeat_char_str(c: char, n: usize) -> (r: String)
    ensures
        r@ == repeat_char(c, n as int),
{
    let mut r = String::new();
    let mut i: usize = 0;
    while i < n
        invariant
            i <= n,
            r@ == repeat_char(c, i as int),
        decreases n - i,
    {
        push_char(&mut r, c);
        i = i + 1;
    }
    r
}

/// `s` with trailing whitespace removed.
pub open spec fn trim_end_spec(s: Seq<char>) -> Seq<char> {
    s.subrange(0, last_non_ws(s, s.len() as int - 1) + 1)
}

pub fn trim_end(s: &str) -> (r: String)
    ensures
        r@ == trim_end_spec(s@),
{
    let chars = chars_of(s);
    let n = chars.len();
    let ghost full = s@;
    if n == 0 {
        proof {
            assert(trim_end_spec(full) =~= Seq::<char>::empty());
        }
        return String::new();
    }
    let mut b: usize = n;
    while b > 0 && crate::linkmap::whitespace_char(chars[b - 1])
        invariant
            chars@ == full,
            n == full.len(),
            b <= n,
            forall|k: int| b <= k < n ==> crate::linkmap::is_whitespace_char(full[k]),
        decreases b,
    {
        b = b - 1;
    }
    proof {
        lemma_last_non_ws(full, n as int - 1);
        if last_non_ws(full, n as int - 1) < b - 1 {
            assert(crate::linkmap::is_whitespace_char(full[b - 1]));
        }
        if last_non_ws(full, n as int - 1) >= b {
            assert(crate::linkmap::is_whitespace_char(full[last_non_ws(full, n as int - 1)]));
        }
        assert(last_non_ws(full, n as int - 1) == b - 1);
    }
    string_range(&chars, 0, b)
}

/// The octal digits of `n`, most significant first.
pub open spec fn oct_digits(n: int) -> Seq<char>
    decreases n,
{
    if n <= 0 {
        Seq::empty()
    } else {
        oct_digits(n / 8).push(digit_char(n % 8))
    }
}

/// The usual octal rendering: digits, or one zero.
pub open spec fn oct_str(n: int) -> Seq<char> {
    if n == 0 {
        seq!['0']
    } else {
        oct_digits(n)
    }
}

/// Renders `n` in octal.
pub fn u16_to_oct(n: u16) -> (r: String)
    ensures
        r@ == oct_str(n as int),
{
    if n == 0 {
        proof {
            reveal_strlit("0");
            assert("0"@ =~= seq!['0']);
        }
        return "0".to_owned();
    }
    let mut digits: Vec<char> = Vec::new();
    let mut m = n;
    while m > 0
        invariant
            m <= n,
            oct_digits(n as int) == oct_digits(m as int) + digits@.reverse(),
        decreases m,
    {
        let d = m % 8;
        digits.push(digit_to_char(d as u64));
        proof {
            assert(oct_digits(m as int) == oct_digits(m as int / 8).push(
                digit_char(m as int % 8),
            ));
            assert(oct_digits(m as int / 8) + digits@.reverse() =~= oct_digits(
                m as int / 8,
            ).push(digit_char(m as int % 8)) + digits@.drop_last().reverse());
        }
        m = m / 8;
    }
    proof {
        assert(oct_digits(0) + digits@.reverse() =~= digits@.reverse());
    }
    let mut r = String::new();
    let mut i: usize = digits.len();
    while i > 0
        invariant
            i <= digits@.len(),
            r@ == digits@.reverse().subrange(0, digits@.len() - i),
        decreases i,
    {
        i = i - 1;
        push_char(&mut r, digits[i]);
        proof {
            assert(digits@.reverse()[digits@.len() - i - 1] == digits@[i as int]);
            assert(r@ =~= digits@.reverse().subrange(0, digits@.len() - i));
        }
    }
    proof {
        assert(digits@.reverse().subrange(0, digits@.len() as int) =~= digits@.reverse());
    }
    r
}

/// `s` left-padded with spaces to at least `w` characters.
pub open spec fn pad_left(s: Seq<char>, w: int) -> Seq<char> {
    if s.len() >= w {
        s
    } else {
        repeat_char(' ', w - s.len()) + s
    }
}

pub fn pad_left_str(s: &str, w: usize) -> (r: String)
    ensures
        r@ == pad_left(s@, w as int),
{
    let n = s.unicode_len();
    if n >= w {
        s.to_owned()
    } else {
        let pad = repeat_char_str(' ', w - n);
        pad.concat(s)
    }
}

/// The UTF-8 byte length of a character sequence, as `str::len` reports
/// it.
pub open spec fn encoded_len(s: Seq<char>) -> int {
    (vstd::utf8::encode_utf8(s).len() as usize) as int
}

/// Strict lexicographic order on codepoint sequences; the order `String`
/// comparisons give, since UTF-8 byte order follows codepoint order.
pub open spec fn lex_lt(a: Seq<char>, b: Seq<char>) -> bool
    decreases a.len(),
{
    if b.len() == 0 {
        false
    } else if a.len() == 0 {
        true
    } else if a[0] != b[0] {
        (a[0] as u32) < (b[0] as u32)
    } else {
        lex_lt(a.skip(1), b.skip(1))
    }
}

/// Two distinct sequences are ordered one way or the other.
pub proof fn lemma_lex_total(a: Seq<char>, b: Seq<char>)
    requires
        a != b,
    ensures
        lex_lt(a, b) || lex_lt(b, a),
    decreases a.len(),
{
    if a.len() == 0 && b.len() == 0 {
        assert(a =~= b);
    } else if a.len() == 0 || b.len() == 0 {
    } else if a[0] != b[0] {
        let ua = a[0] as u32;
        let ub = b[0] as u32;
        vstd::utf8::char_u32_cast(a[0], ua);
        vstd::utf8::char_u32_cast(b[0], ub);
        assert(ua != ub);
    } else {
        assert(a.skip(1) != b.skip(1)) by {
            if a.skip(1) == b.skip(1) {
                assert(a.skip(1).len() == a.len() - 1);
                assert(b.skip(1).len() == b.len() - 1);
                assert forall|k: int| 0 <= k < a.len() implies a[k] == b[k] by {
                    if k > 0 {
                        assert(a.skip(1)[k - 1] == a[k]);
                        assert(b.skip(1)[k - 1] == b[k]);
                    }
                }
                assert(a =~= b);
            }
        }
        lemma_lex_total(a.skip(1), b.skip(1));
    }
}

/// Nothing is below itself.
pub proof fn lemma_lex_irreflexive(a: Seq<char>)
    ensures
        !lex_lt(a, a),
    decreases a.len(),
{
    if a.len() > 0 {
        lemma_lex_irreflexive(a.skip(1));
    }
}

pub proof fn lemma_lex_transitive(a: Seq<char>, b: Seq<char>, c: Seq<char>)
    requires
        lex_lt(a, b),
        lex_lt(b, c),
    ensures
        lex_lt(a, c),
    decreases a.len() + b.len() + c.len(),
{
    if b.len() == 0 || c.len() == 0 {
    } else if a.len() == 0 {
    } else if a[0] == b[0] && b[0] == c[0] {
        lemma_lex_transitive(a.skip(1), b.skip(1), c.skip(1));
    } else if a[0] == b[0] {
        // b and c differ at the head, so a and c do too
        assert(a[0] != c[0]);
    } else if b[0] == c[0] {
        assert(a[0] != c[0]);
    } else {
        assert((a[0] as u32) < (c[0] as u32));
        assert(a[0] != c[0]);
    }
}

/// Compares two string slices lexicographically by codepoint.
pub fn str_lt(a: &str, b: &str) -> (r: bool)
    ensures
        r == lex_lt(a@, b@),
{
    let na = a.unicode_len();
    let nb = b.unicode_len();
    let mut i: usize = 0;
    proof {
        assert(a@.skip(0) =~= a@);
        assert(b@.skip(0) =~= b@);
    }
    while i < na && i < nb
        invariant
            na == a@.len(),
            nb == b@.len(),
            i <= na,
            i <= nb,
            lex_lt(a@, b@) == lex_lt(a@.skip(i as int), b@.skip(i as int)),
        decreases na - i,
    {
        let ca = a.get_char(i);
        let cb = b.get_char(i);
        proof {
            assert(a@.skip(i as int)[0] == a@[i as int]);
            assert(b@.skip(i as int)[0] == b@[i as int]);
            assert(a@.skip(i as int).skip(1) =~= a@.skip(i + 1));
            assert(b@.skip(i as int).skip(1) =~= b@.skip(i + 1));
        }
        if ca != cb {
            return (ca as u32) < (cb as u32);
        }
        i = i + 1;
    }
    proof {
        if i == na {
            assert(a@.skip(i as int).len() == 0);
        }
        if i == nb {
            assert(b@.skip(i as int).len() == 0);
        }
    }
    na < nb
}

} // verus!



