//! Character-level helpers: reading a string as characters, whitespace,
//! tokens, trimming and lines.
use vstd::prelude::*;

verus! {

/// The characters of `s`, in order.
pub fn chars_of(s: &str) -> (r: Vec<char>)
    ensures
        r@ == s@,
{
    let mut v: Vec<char> = Vec::new();
    for c in it: s.chars()
        invariant
            v@ == it.seq().take(it.index() as int),
    {
        v.push(c);
    }
    v
}

/// Relies on String::push: appends one character at the end.
#[verifier::external_body]
pub(crate) fn push_char(s: &mut String, c: char)
    ensures
        final(s)@ == old(s)@.push(c),
{
    s.push(c)
}

/// The string made of `cs[lo..hi]`.
pub fn string_of(cs: &Vec<char>, lo: usize, hi: usize) -> (r: String)
    requires
        lo <= hi <= cs@.len(),
    ensures
        r@ == cs@.subrange(lo as int, hi as int),
{
    let mut r = String::new();
    let mut i: usize = lo;
    while i < hi
        invariant
            lo <= i <= hi <= cs@.len(),
            r@ == cs@.subrange(lo as int, i as int),
        decreases hi - i,
    {
        push_char(&mut r, cs[i]);
        assert(cs@.subrange(lo as int, i + 1) =~= cs@.subrange(lo as int, i as int).push(cs@[i as int]));
        i += 1;
    }
    r
}

/// Whether two strings hold the same characters.
pub fn same_text(a: &str, b: &str) -> (r: bool)
    ensures
        r == (a@ == b@),
{
    let n = a.unicode_len();
    if n != b.unicode_len() {
        return false;
    }
    let mut i: usize = 0;
    while i < n
        invariant
            n == a@.len() == b@.len(),
            i <= n,
            a@.take(i as int) == b@.take(i as int),
        decreases n - i,
    {
        if a.get_char(i) != b.get_char(i) {
            return false;
        }
        assert(a@.take(i + 1) =~= a@.take(i as int).push(a@[i as int]));
        assert(b@.take(i + 1) =~= b@.take(i as int).push(b@[i as int]));
        i += 1;
    }
    assert(a@ =~= a@.take(n as int));
    assert(b@ =~= b@.take(n as int));
    true
}

/// Unicode White_Space, the set that `char::is_whitespace` tests.
pub open spec fn is_ws(c: char) -> bool {
    let u = c as u32;
    (0x09 <= u <= 0x0d) || u == 0x20 || u == 0x85 || u == 0xa0 || u == 0x1680 || (0x2000 <= u
        <= 0x200a) || u == 0x2028 || u == 0x2029 || u == 0x202f || u == 0x205f || u == 0x3000
}

/// Whether `c` is white space.
pub fn is_whitespace(c: char) -> (r: bool)
    ensures
        r == is_ws(c),
{
    let u = c as u32;
    (0x09 <= u && u <= 0x0d) || u == 0x20 || u == 0x85 || u == 0xa0 || u == 0x1680 || (0x2000 <= u
        && u <= 0x200a) || u == 0x2028 || u == 0x2029 || u == 0x202f || u == 0x205f || u == 0x3000
}

/// `cur` as a finished piece, if it holds anything.
pub open spec fn flush(cur: Seq<char>) -> Seq<Seq<char>> {
    if cur.len() == 0 {
        seq![]
    } else {
        seq![cur]
    }
}

/// The whitespace-separated tokens of `s`, given that `cur` was read just before it.
pub open spec fn tokens_from(s: Seq<char>, cur: Seq<char>) -> Seq<Seq<char>>
    decreases s.len(),
{
    if s.len() == 0 {
        flush(cur)
    } else if is_ws(s[0]) {
        flush(cur) + tokens_from(s.drop_first(), seq![])
    } else {
        tokens_from(s.drop_first(), cur.push(s[0]))
    }
}

/// The maximal runs of non-whitespace characters of `s`, in order.
pub open spec fn tokens(s: Seq<char>) -> Seq<Seq<char>> {
    tokens_from(s, seq![])
}

/// The views of a sequence of strings.
pub open spec fn views(v: Seq<String>) -> Seq<Seq<char>> {
    v.map_values(|t: String| t@)
}

/// The whitespace-separated tokens of `s`.
pub fn split_tokens(s: &str) -> (r: Vec<String>)
    ensures
        views(r@) == tokens(s@),
{
    let cs = chars_of(s);
    let n = cs.len();
    let mut out: Vec<String> = Vec::new();
    let mut start: usize = 0;
    let mut i: usize = 0;
    assert(cs@.skip(0) =~= cs@);
    assert(cs@.subrange(0, 0) =~= Seq::<char>::empty());
    while i < n
        invariant
            n == cs@.len(),
            cs@ == s@,
            start <= i <= n,
            views(out@) + tokens_from(cs@.skip(i as int), cs@.subrange(start as int, i as int))
                == tokens(s@),
        decreases n - i,
    {
        let ghost rest = cs@.skip(i as int);
        assert(rest.drop_first() =~= cs@.skip(i + 1));
        if is_whitespace(cs[i]) {
            if start < i {
                let t = string_of(&cs, start, i);
                let ghost before = out@;
                out.push(t);
                assert(views(out@) =~= views(before) + flush(t@));
            } else {
                assert(views(out@) =~= views(out@) + flush(seq![]));
            }
            assert(cs@.subrange(i + 1, i + 1) =~= Seq::<char>::empty());
            i += 1;
            start = i;
        } else {
            assert(cs@.subrange(start as int, i as int).push(cs@[i as int]) =~= cs@.subrange(
                start as int,
                i + 1,
            ));
            i += 1;
        }
    }
    assert(cs@.skip(i as int) =~= Seq::<char>::empty());
    if start < i {
        let t = string_of(&cs, start, i);
        let ghost before = out@;
        out.push(t);
        assert(views(out@) =~= views(before) + flush(t@));
    } else {
        assert(views(out@) =~= views(out@) + flush(seq![]));
    }
    out
}

/// `s` without its leading whitespace.
pub open spec fn trim_start(s: Seq<char>) -> Seq<char>
    decreases s.len(),
{
    if s.len() > 0 && is_ws(s[0]) {
        trim_start(s.drop_first())
    } else {
        s
    }
}

/// `s` without its trailing whitespace.
pub open spec fn trim_end(s: Seq<char>) -> Seq<char>
    decreases s.len(),
{
    if s.len() > 0 && is_ws(s.last()) {
        trim_end(s.drop_last())
    } else {
        s
    }
}

/// `s` without leading and trailing whitespace.
pub open spec fn trim(s: Seq<char>) -> Seq<char> {
    trim_end(trim_start(s))
}

/// The bounds of `cs[lo..hi]` with its surrounding whitespace taken off.
pub fn trim_bounds(cs: &Vec<char>, lo: usize, hi: usize) -> (r: (usize, usize))
    requires
        lo <= hi <= cs@.len(),
    ensures
        lo <= r.0 <= r.1 <= hi,
        cs@.subrange(r.0 as int, r.1 as int) == trim(cs@.subrange(lo as int, hi as int)),
{
    let mut a: usize = lo;
    while a < hi && is_whitespace(cs[a])
        invariant
            lo <= a <= hi <= cs@.len(),
            trim_start(cs@.subrange(a as int, hi as int)) == trim_start(
                cs@.subrange(lo as int, hi as int),
            ),
        decreases hi - a,
    {
        assert(cs@.subrange(a as int, hi as int).drop_first() =~= cs@.subrange(a + 1, hi as int));
        a += 1;
    }
    let mut b: usize = hi;
    while b > a && is_whitespace(cs[b - 1])
        invariant
            lo <= a <= b <= hi <= cs@.len(),
            trim_end(cs@.subrange(a as int, b as int)) == trim(cs@.subrange(lo as int, hi as int)),
        decreases b,
    {
        assert(cs@.subrange(a as int, b as int).drop_last() =~= cs@.subrange(a as int, b - 1));
        b -= 1;
    }
    (a, b)
}

/// Whether `s` holds `x` immediately followed by `y` at position `i`.
pub open spec fn pair_at(s: Seq<char>, i: int, x: char, y: char) -> bool {
    0 <= i && i + 1 < s.len() && s[i] == x && s[i + 1] == y
}

/// Whether `s` holds `x` immediately followed by `y` somewhere.
pub open spec fn contains_pair(s: Seq<char>, x: char, y: char) -> bool {
    exists|i: int| pair_at(s, i, x, y)
}

/// The first position at or after `from` where `x` is immediately followed by `y`.
pub fn find_pair(cs: &Vec<char>, x: char, y: char, from: usize) -> (r: Option<usize>)
    ensures
        match r {
            Some(i) => from <= i && pair_at(cs@, i as int, x, y) && forall|j: int|
                from <= j < i ==> !pair_at(cs@, j, x, y),
            None => forall|j: int| from <= j ==> !pair_at(cs@, j, x, y),
        },
{
    let mut i: usize = from;
    while i < cs.len() && i + 1 < cs.len()
        invariant
            from <= i,
            forall|j: int| from <= j < i ==> !pair_at(cs@, j, x, y),
        decreases cs@.len() - i,
    {
        if cs[i] == x && cs[i + 1] == y {
            return Some(i);
        }
        i += 1;
    }
    None
}

/// The lines of `s` after `cur` was read on the current line: pieces
/// between line feeds, a carriage return before a line feed taken off, and
/// no empty piece after a final line feed.
pub open spec fn lines_from(s: Seq<char>, cur: Seq<char>) -> Seq<Seq<char>>
    decreases s.len(),
{
    if s.len() == 0 {
        flush(cur)
    } else if s[0] == '\n' {
        seq![strip_cr(cur)] + lines_from(s.drop_first(), seq![])
    } else {
        lines_from(s.drop_first(), cur.push(s[0]))
    }
}

/// `cur` without one trailing carriage return.
pub open spec fn strip_cr(cur: Seq<char>) -> Seq<char> {
    if cur.len() > 0 && cur.last() == '\r' {
        cur.drop_last()
    } else {
        cur
    }
}

/// The lines of `s`, as `str::lines` gives them.
pub open spec fn lines(s: Seq<char>) -> Seq<Seq<char>> {
    lines_from(s, seq![])
}

/// The lines of `s`.
pub fn split_lines(s: &str) -> (r: Vec<String>)
    ensures
        views(r@) == lines(s@),
{
    let cs = chars_of(s);
    let n = cs.len();
    let mut out: Vec<String> = Vec::new();
    let mut start: usize = 0;
    let mut i: usize = 0;
    assert(cs@.skip(0) =~= cs@);
    assert(cs@.subrange(0, 0) =~= Seq::<char>::empty());
    while i < n
        invariant
            n == cs@.len(),
            cs@ == s@,
            start <= i <= n,
            views(out@) + lines_from(cs@.skip(i as int), cs@.subrange(start as int, i as int))
                == lines(s@),
        decreases n - i,
    {
        let ghost rest = cs@.skip(i as int);
        assert(rest.drop_first() =~= cs@.skip(i + 1));
        if cs[i] == '\n' {
            let ghost cur = cs@.subrange(start as int, i as int);
            let end = if start < i && cs[i - 1] == '\r' {
                assert(cs@.subrange(start as int, i - 1) =~= cur.drop_last());
                i - 1
            } else {
                i
            };
            let t = string_of(&cs, start, end);
            let ghost before = out@;
            out.push(t);
            assert(views(out@) =~= views(before) + seq![strip_cr(cur)]);
            assert(cs@.subrange(i + 1, i + 1) =~= Seq::<char>::empty());
            i += 1;
            start = i;
        } else {
            assert(cs@.subrange(start as int, i as int).push(cs@[i as int]) =~= cs@.subrange(
                start as int,
                i + 1,
            ));
            i += 1;
        }
    }
    assert(cs@.skip(i as int) =~= Seq::<char>::empty());
    if start < i {
        let t = string_of(&cs, start, i);
        let ghost before = out@;
        out.push(t);
        assert(views(out@) =~= views(before) + flush(t@));
    } else {
        assert(views(out@) =~= views(out@) + flush(seq![]));
    }
    out
}

} // verus!
