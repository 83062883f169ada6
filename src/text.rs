//! Character-level text handling: lines, whitespace, trimming and decimal numbers.
//!
//! Text is handled as a vector of characters while it is taken apart or put
//! together; the public functions of the library take and return `String`s.

use vstd::prelude::*;

verus! {

// ---------------------------------------------------------------------------
// Characters and strings
// ---------------------------------------------------------------------------

/// The characters of `s`, in order.
pub fn chars_of(s: &str) -> (r: Vec<char>)
    ensures
        r@ == s@,
{
    let mut r: Vec<char> = Vec::new();
    for c in it: s.chars()
        invariant
            it.seq() == s@,
            r@ == it.seq().take(it.index() as int),
    {
        r.push(c);
    }
    r
}

/// Relies on `String: FromIterator<&char>`: the string holds the given
/// characters in their order.
#[verifier::external_body]
pub(crate) fn string_from(v: &Vec<char>) -> (r: String)
    ensures
        r@ == v@,
{
    v.iter().collect()
}

/// Appends the characters of `s`.
pub fn push_str(out: &mut Vec<char>, s: &str)
    ensures
        final(out)@ == old(out)@ + s@,
{
    let cs = chars_of(s);
    push_all(out, &cs);
}

/// Appends `cs[lo..hi]`.
pub fn push_range(out: &mut Vec<char>, cs: &Vec<char>, lo: usize, hi: usize)
    requires
        lo <= hi <= cs@.len(),
    ensures
        final(out)@ == old(out)@ + cs@.subrange(lo as int, hi as int),
{
    let ghost start = out@;
    let mut i: usize = lo;
    while i < hi
        invariant
            lo <= i <= hi <= cs@.len(),
            out@ == start + cs@.subrange(lo as int, i as int),
        decreases hi - i,
    {
        out.push(cs[i]);
        assert(cs@.subrange(lo as int, i + 1) =~= cs@.subrange(lo as int, i as int).push(
            cs@[i as int],
        ));
        i = i + 1;
    }
}

/// Appends all of `cs`.
pub fn push_all(out: &mut Vec<char>, cs: &Vec<char>)
    ensures
        final(out)@ == old(out)@ + cs@,
{
    push_range(out, cs, 0, cs.len());
    assert(cs@.subrange(0, cs@.len() as int) =~= cs@);
}

/// The string of `cs[lo..hi]`.
pub fn string_of_range(cs: &Vec<char>, lo: usize, hi: usize) -> (r: String)
    requires
        lo <= hi <= cs@.len(),
    ensures
        r@ == cs@.subrange(lo as int, hi as int),
{
    let mut v: Vec<char> = Vec::new();
    push_range(&mut v, cs, lo, hi);
    string_from(&v)
}

/// Whether `cs[lo..hi]` and `ds[a..b]` hold the same characters.
pub fn ranges_equal(cs: &Vec<char>, lo: usize, hi: usize, ds: &Vec<char>, a: usize, b: usize) -> (r:
    bool)
    requires
        lo <= hi <= cs@.len(),
        a <= b <= ds@.len(),
    ensures
        r == (cs@.subrange(lo as int, hi as int) == ds@.subrange(a as int, b as int)),
{
    if hi - lo != b - a {
        assert(cs@.subrange(lo as int, hi as int).len() != ds@.subrange(a as int, b as int).len());
        return false;
    }
    let mut i: usize = 0;
    while i < hi - lo
        invariant
            lo <= hi <= cs@.len(),
            a <= b <= ds@.len(),
            hi - lo == b - a,
            i <= hi - lo,
            forall|k: int| 0 <= k < i ==> cs@.subrange(lo as int, hi as int)[k] == #[trigger] ds@.subrange(a as int, b as int)[k],
        decreases hi - lo - i,
    {
        if cs[lo + i] != ds[a + i] {
            assert(cs@.subrange(lo as int, hi as int)[i as int] != ds@.subrange(
                a as int,
                b as int,
            )[i as int]);
            return false;
        }
        i = i + 1;
    }
    assert(cs@.subrange(lo as int, hi as int) =~= ds@.subrange(a as int, b as int));
    true
}

/// `s` ends with `t`.
pub open spec fn ends_with(s: Seq<char>, t: Seq<char>) -> bool {
    s.len() >= t.len() && s.subrange(s.len() - t.len(), s.len() as int) == t
}

/// Whether `cs` ends with `ts`.
pub fn ends_with_chars(cs: &Vec<char>, ts: &Vec<char>) -> (r: bool)
    ensures
        r == ends_with(cs@, ts@),
{
    if cs.len() < ts.len() {
        return false;
    }
    assert(ts@.subrange(0, ts@.len() as int) =~= ts@);
    ranges_equal(cs, cs.len() - ts.len(), cs.len(), ts, 0, ts.len())
}

// ---------------------------------------------------------------------------
// Decimal numbers
// ---------------------------------------------------------------------------

/// The character of a decimal digit.
pub open spec fn digit_char(d: nat) -> char {
    if d == 0 {
        '0'
    } else if d == 1 {
        '1'
    } else if d == 2 {
        '2'
    } else if d == 3 {
        '3'
    } else if d == 4 {
        '4'
    } else if d == 5 {
        '5'
    } else if d == 6 {
        '6'
    } else if d == 7 {
        '7'
    } else if d == 8 {
        '8'
    } else {
        '9'
    }
}

/// `n` written in decimal, without leading zeros.
pub open spec fn decimal(n: nat) -> Seq<char>
    decreases n,
{
    if n < 10 {
        seq![digit_char(n)]
    } else {
        decimal(n / 10).push(digit_char(n % 10))
    }
}

fn digit(d: u32) -> (c: char)
    requires
        d < 10,
    ensures
        c == digit_char(d as nat),
{
    if d == 0 {
        '0'
    } else if d == 1 {
        '1'
    } else if d == 2 {
        '2'
    } else if d == 3 {
        '3'
    } else if d == 4 {
        '4'
    } else if d == 5 {
        '5'
    } else if d == 6 {
        '6'
    } else if d == 7 {
        '7'
    } else if d == 8 {
        '8'
    } else {
        '9'
    }
}

/// Appends `n` in decimal.
pub fn push_decimal(out: &mut Vec<char>, n: u32)
    ensures
        final(out)@ == old(out)@ + decimal(n as nat),
    decreases n,
{
    if n >= 10 {
        push_decimal(out, n / 10);
    }
    out.push(digit(n % 10));
    assert(final(out)@ =~= old(out)@ + decimal(n as nat)) by {
        if n < 10 {
            assert(n as nat % 10 == n as nat);
        }
    }
}

/// The value of a decimal digit character.
pub open spec fn digit_value(c: char) -> nat {
    ((c as u32) - ('0' as u32)) as nat
}

pub open spec fn is_digit(c: char) -> bool {
    '0' <= c && c <= '9'
}

/// The value of a string of decimal digits.
pub open spec fn digits_value(s: Seq<char>) -> nat
    decreases s.len(),
{
    if s.len() == 0 {
        0
    } else {
        digits_value(s.drop_last()) * 10 + digit_value(s.last())
    }
}

/// The digits of an unsigned number: an optional `+` sign dropped.
pub open spec fn unsigned_digits(s: Seq<char>) -> Seq<char> {
    if s.len() > 0 && s[0] == '+' {
        s.drop_first()
    } else {
        s
    }
}

/// What `u32::from_str` gives: an optional `+`, then one or more decimal
/// digits whose value fits in a `u32`.
pub open spec fn parse_u32(s: Seq<char>) -> Option<u32> {
    let d = unsigned_digits(s);
    if d.len() > 0 && (forall|i: int| 0 <= i < d.len() ==> is_digit(#[trigger] d[i]))
        && digits_value(d) <= u32::MAX {
        Some(digits_value(d) as u32)
    } else {
        None
    }
}

spec fn capped(v: nat) -> nat {
    if v > u32::MAX {
        u32::MAX as nat + 1
    } else {
        v
    }
}

/// Reads `cs[lo..hi]` as an unsigned 32-bit number.
pub fn parse_u32_range(cs: &Vec<char>, lo: usize, hi: usize) -> (r: Option<u32>)
    requires
        lo <= hi <= cs@.len(),
    ensures
        r == parse_u32(cs@.subrange(lo as int, hi as int)),
{
    let ghost s = cs@.subrange(lo as int, hi as int);
    let mut a: usize = lo;
    if a < hi && cs[a] == '+' {
        a = a + 1;
    }
    assert(unsigned_digits(s) =~= cs@.subrange(a as int, hi as int));
    if a == hi {
        return None;
    }
    let mut acc: u64 = 0;
    let mut i: usize = a;
    while i < hi
        invariant
            lo <= a <= i <= hi <= cs@.len(),
            a < hi,
            s == cs@.subrange(lo as int, hi as int),
            unsigned_digits(s) == cs@.subrange(a as int, hi as int),
            acc as nat == capped(digits_value(cs@.subrange(a as int, i as int))),
            forall|k: int| a <= k < i ==> is_digit(#[trigger] cs@[k]),
        decreases hi - i,
    {
        let c = cs[i];
        if !('0' <= c && c <= '9') {
            proof {
                let d = unsigned_digits(s);
                assert(!is_digit(d[i - a]));
                assert(!(forall|k: int| 0 <= k < d.len() ==> is_digit(#[trigger] d[k])));
            }
            return None;
        }
        let d = (c as u32 - '0' as u32) as u64;
        let ghost prev = digits_value(cs@.subrange(a as int, i as int));
        assert(cs@.subrange(a as int, i + 1).drop_last() =~= cs@.subrange(a as int, i as int));
        assert(digits_value(cs@.subrange(a as int, i + 1)) == prev * 10 + d);
        assert(capped(capped(prev) * 10 + d as nat) == capped(prev * 10 + d as nat)) by (
        nonlinear_arith)
            requires
                d < 10,
        {
        }
        let v = acc * 10 + d;
        acc = if v > 0xFFFF_FFFF {
            0x1_0000_0000
        } else {
            v
        };
        i = i + 1;
    }
    if acc > 0xFFFF_FFFF {
        None
    } else {
        Some(acc as u32)
    }
}

// ---------------------------------------------------------------------------
// Whitespace and trimming
// ---------------------------------------------------------------------------

/// Unicode `White_Space`, the set that `str::trim` and `split_whitespace` use.
pub open spec fn is_ws(c: char) -> bool {
    let u = c as u32;
    (0x09 <= u && u <= 0x0D) || u == 0x20 || u == 0x85 || u == 0xA0 || u == 0x1680 || (0x2000
        <= u && u <= 0x200A) || u == 0x2028 || u == 0x2029 || u == 0x202F || u == 0x205F || u
        == 0x3000
}

pub fn is_whitespace(c: char) -> (r: bool)
    ensures
        r == is_ws(c),
{
    let u = c as u32;
    (0x09 <= u && u <= 0x0D) || u == 0x20 || u == 0x85 || u == 0xA0 || u == 0x1680 || (0x2000
        <= u && u <= 0x200A) || u == 0x2028 || u == 0x2029 || u == 0x202F || u == 0x205F || u
        == 0x3000
}

/// `s` without its leading whitespace.
pub open spec fn trim_start(s: Seq<char>) -> Seq<char>
    decreases s.len(),
{
    if s.len() > 0 && is_ws(s[0]) {
        trim_start(s.drop_first())
    } else {
        s
    }
}

/// `s` without its trailing whitespace.
pub open spec fn trim_end(s: Seq<char>) -> Seq<char>
    decreases s.len(),
{
    if s.len() > 0 && is_ws(s.last()) {
        trim_end(s.drop_last())
    } else {
        s
    }
}

/// `s` without leading and trailing whitespace.
pub open spec fn trim(s: Seq<char>) -> Seq<char> {
    trim_end(trim_start(s))
}

/// The bounds of the trimmed part of `cs[lo..hi]`.
pub fn trim_bounds(cs: &Vec<char>, lo: usize, hi: usize) -> (r: (usize, usize))
    requires
        lo <= hi <= cs@.len(),
    ensures
        lo <= r.0 <= r.1 <= hi,
        cs@.subrange(r.0 as int, r.1 as int) == trim(cs@.subrange(lo as int, hi as int)),
{
    let mut a: usize = lo;
    while a < hi && is_whitespace(cs[a])
        invariant
            lo <= a <= hi <= cs@.len(),
            trim_start(cs@.subrange(lo as int, hi as int)) == trim_start(
                cs@.subrange(a as int, hi as int),
            ),
        decreases hi - a,
    {
        assert(cs@.subrange(a as int, hi as int).drop_first() =~= cs@.subrange(
            a + 1,
            hi as int,
        ));
        a = a + 1;
    }
    let mut b: usize = hi;
    while b > a && is_whitespace(cs[b - 1])
        invariant
            lo <= a <= b <= hi <= cs@.len(),
            trim_start(cs@.subrange(lo as int, hi as int)) == cs@.subrange(a as int, hi as int),
            trim(cs@.subrange(lo as int, hi as int)) == trim_end(cs@.subrange(a as int, b as int)),
        decreases b - a,
    {
        assert(cs@.subrange(a as int, b as int).drop_last() =~= cs@.subrange(
            a as int,
            b - 1,
        ));
        b = b - 1;
    }
    (a, b)
}

// ---------------------------------------------------------------------------
// Lines
// ---------------------------------------------------------------------------

/// A line without the carriage return that ended it, if any.
pub open spec fn strip_cr(l: Seq<char>) -> Seq<char> {
    if l.len() > 0 && l.last() == '\r' {
        l.drop_last()
    } else {
        l
    }
}

/// The characters after the last line feed of `s`.
pub open spec fn tail_line(s: Seq<char>) -> Seq<char>
    decreases s.len(),
{
    if s.len() == 0 {
        seq![]
    } else if s.last() == '\n' {
        seq![]
    } else {
        tail_line(s.drop_last()).push(s.last())
    }
}

/// The lines of `s` that a line feed ends, without their line ending.
pub open spec fn done_lines(s: Seq<char>) -> Seq<Seq<char>>
    decreases s.len(),
{
    if s.len() == 0 {
        seq![]
    } else if s.last() == '\n' {
        done_lines(s.drop_last()).push(strip_cr(tail_line(s.drop_last())))
    } else {
        done_lines(s.drop_last())
    }
}

/// The lines of `s`: split at each line feed, a carriage return before it
/// dropped, and no empty line after a final line feed (as `str::lines`).
pub open spec fn lines(s: Seq<char>) -> Seq<Seq<char>> {
    if tail_line(s).len() == 0 {
        done_lines(s)
    } else {
        done_lines(s).push(tail_line(s))
    }
}

/// The pieces of `cs` that the spans mark.
pub open spec fn span_texts(cs: Seq<char>, sp: Seq<(usize, usize)>) -> Seq<Seq<char>> {
    sp.map_values(|p: (usize, usize)| cs.subrange(p.0 as int, p.1 as int))
}

pub open spec fn spans_within(sp: Seq<(usize, usize)>, n: int) -> bool {
    forall|k: int| 0 <= k < sp.len() ==> #[trigger] sp[k].0 <= sp[k].1 <= n
}

/// Where the lines of `cs` stand in it.
pub fn line_spans(cs: &Vec<char>) -> (r: Vec<(usize, usize)>)
    ensures
        spans_within(r@, cs@.len() as int),
        span_texts(cs@, r@) == lines(cs@),
{
    let n = cs.len();
    let mut r: Vec<(usize, usize)> = Vec::new();
    let mut start: usize = 0;
    let mut i: usize = 0;
    while i < n
        invariant
            n == cs@.len(),
            start <= i <= n,
            spans_within(r@, i as int),
            span_texts(cs@, r@) == done_lines(cs@.take(i as int)),
            tail_line(cs@.take(i as int)) == cs@.subrange(start as int, i as int),
        decreases n - i,
    {
        let ghost t = cs@.take(i + 1);
        assert(t.drop_last() =~= cs@.take(i as int));
        assert(t.last() == cs@[i as int]);
        if cs[i] == '\n' {
            let end: usize = if i > start && cs[i - 1] == '\r' {
                i - 1
            } else {
                i
            };
            proof {
                let l = cs@.subrange(start as int, i as int);
                if i > start && cs@[i - 1] == '\r' {
                    assert(l.drop_last() =~= cs@.subrange(start as int, end as int));
                }
                assert(strip_cr(l) == cs@.subrange(start as int, end as int));
            }
            r.push((start, end));
            assert(span_texts(cs@, r@) =~= done_lines(t));
            start = i + 1;
            assert(tail_line(t) =~= cs@.subrange(start as int, (i + 1) as int));
        } else {
            assert(tail_line(t) =~= cs@.subrange(start as int, (i + 1) as int));
        }
        i = i + 1;
    }
    assert(cs@.take(n as int) =~= cs@);
    if start < n {
        r.push((start, n));
        assert(span_texts(cs@, r@) =~= lines(cs@));
    }
    r
}

// ---------------------------------------------------------------------------
// Words
// ---------------------------------------------------------------------------

/// The characters after the last whitespace of `s`.
pub open spec fn tail_word(s: Seq<char>) -> Seq<char>
    decreases s.len(),
{
    if s.len() == 0 {
        seq![]
    } else if is_ws(s.last()) {
        seq![]
    } else {
        tail_word(s.drop_last()).push(s.last())
    }
}

/// The words of `s` that whitespace ends.
pub open spec fn done_words(s: Seq<char>) -> Seq<Seq<char>>
    decreases s.len(),
{
    if s.len() == 0 {
        seq![]
    } else if is_ws(s.last()) && tail_word(s.drop_last()).len() > 0 {
        done_words(s.drop_last()).push(tail_word(s.drop_last()))
    } else {
        done_words(s.drop_last())
    }
}

/// The non-empty runs of non-whitespace in `s` (as `str::split_whitespace`).
pub open spec fn words(s: Seq<char>) -> Seq<Seq<char>> {
    if tail_word(s).len() == 0 {
        done_words(s)
    } else {
        done_words(s).push(tail_word(s))
    }
}

/// Where the words of `cs` stand in it.
pub fn word_spans(cs: &Vec<char>) -> (r: Vec<(usize, usize)>)
    ensures
        spans_within(r@, cs@.len() as int),
        span_texts(cs@, r@) == words(cs@),
{
    let n = cs.len();
    let mut r: Vec<(usize, usize)> = Vec::new();
    let mut start: usize = 0;
    let mut i: usize = 0;
    while i < n
        invariant
            n == cs@.len(),
            start <= i <= n,
            spans_within(r@, i as int),
            span_texts(cs@, r@) == done_words(cs@.take(i as int)),
            tail_word(cs@.take(i as int)) == cs@.subrange(start as int, i as int),
        decreases n - i,
    {
        let ghost t = cs@.take(i + 1);
        assert(t.drop_last() =~= cs@.take(i as int));
        assert(t.last() == cs@[i as int]);
        if is_whitespace(cs[i]) {
            if start < i {
                r.push((start, i));
            }
            assert(span_texts(cs@, r@) =~= done_words(t));
            start = i + 1;
            assert(tail_word(t) =~= cs@.subrange(start as int, (i + 1) as int));
        } else {
            assert(tail_word(t) =~= cs@.subrange(start as int, (i + 1) as int));
        }
        i = i + 1;
    }
    assert(cs@.take(n as int) =~= cs@);
    if start < n {
        r.push((start, n));
        assert(span_texts(cs@, r@) =~= words(cs@));
    }
    r
}

// ---------------------------------------------------------------------------
// Facts about lines and trimming
// ---------------------------------------------------------------------------

/// `s` holds no line feed.
pub open spec fn no_newline(s: Seq<char>) -> bool {
    forall|i: int| 0 <= i < s.len() ==> s[i] != '\n'
}

proof fn lemma_tail_line_no_newline(s: Seq<char>)
    ensures
        no_newline(tail_line(s)),
    decreases s.len(),
{
    if s.len() > 0 && s.last() != '\n' {
        lemma_tail_line_no_newline(s.drop_last());
        let t = tail_line(s.drop_last());
        assert(tail_line(s) == t.push(s.last()));
        assert forall|i: int| 0 <= i < t.len() + 1 implies t.push(s.last())[i] != '\n' by {
            if i < t.len() {
                assert(t.push(s.last())[i] == t[i]);
            }
        }
    }
}

/// No line of `s` holds a line feed.
pub proof fn lemma_lines_no_newline(s: Seq<char>)
    ensures
        forall|k: int| 0 <= k < lines(s).len() ==> no_newline(#[trigger] lines(s)[k]),
{
    lemma_done_lines_no_newline(s);
    lemma_tail_line_no_newline(s);
}

proof fn lemma_done_lines_no_newline(s: Seq<char>)
    ensures
        forall|k: int| 0 <= k < done_lines(s).len() ==> no_newline(#[trigger] done_lines(s)[k]),
    decreases s.len(),
{
    if s.len() > 0 {
        let d = done_lines(s.drop_last());
        lemma_done_lines_no_newline(s.drop_last());
        if s.last() == '\n' {
            let t = tail_line(s.drop_last());
            lemma_tail_line_no_newline(s.drop_last());
            assert(no_newline(strip_cr(t)));
            assert(done_lines(s) == d.push(strip_cr(t)));
            assert forall|k: int| 0 <= k < d.len() + 1 implies no_newline(
                #[trigger] d.push(strip_cr(t))[k],
            ) by {
                if k < d.len() {
                    assert(d.push(strip_cr(t))[k] == d[k]);
                }
            }
        } else {
            assert(done_lines(s) == d);
        }
    }
}

/// Characters without a line feed, after text that ends a line, stand on a
/// line of their own that is not finished yet.
proof fn lemma_tail_line_extend(s: Seq<char>, x: Seq<char>)
    requires
        tail_line(s).len() == 0,
        no_newline(x),
    ensures
        tail_line(s + x) == x,
        done_lines(s + x) == done_lines(s),
    decreases x.len(),
{
    if x.len() == 0 {
        assert(s + x =~= s);
    } else {
        let y = x.drop_last();
        assert(no_newline(y));
        lemma_tail_line_extend(s, y);
        assert((s + x).drop_last() =~= s + y);
        assert((s + x).last() == x.last());
        assert(y.push(x.last()) =~= x);
    }
}

/// Text that ends a line, followed by one more line `x` and its line feed,
/// has the lines of the text and then `x`.
pub proof fn lemma_lines_push_line(s: Seq<char>, x: Seq<char>)
    requires
        tail_line(s).len() == 0,
        no_newline(x),
        x.len() == 0 || x.last() != '\r',
    ensures
        done_lines(s + x + seq!['\n']) == done_lines(s).push(x),
        tail_line(s + x + seq!['\n']).len() == 0,
{
    lemma_tail_line_extend(s, x);
    let t = s + x + seq!['\n'];
    assert(t.drop_last() =~= s + x);
    assert(t.last() == '\n');
    assert(strip_cr(x) == x);
}

proof fn lemma_trim_start_suffix(s: Seq<char>)
    ensures
        trim_start(s).len() <= s.len(),
        forall|i: int|
            0 <= i < trim_start(s).len() ==> #[trigger] trim_start(s)[i] == s[i + s.len()
                - trim_start(s).len()],
    decreases s.len(),
{
    if s.len() > 0 && is_ws(s[0]) {
        lemma_trim_start_suffix(s.drop_first());
    }
}

proof fn lemma_trim_end_prefix(s: Seq<char>)
    ensures
        trim_end(s).len() <= s.len(),
        forall|i: int| 0 <= i < trim_end(s).len() ==> #[trigger] trim_end(s)[i] == s[i],
        trim_end(s).len() > 0 ==> !is_ws(trim_end(s).last()),
    decreases s.len(),
{
    if s.len() > 0 && is_ws(s.last()) {
        lemma_trim_end_prefix(s.drop_last());
    }
}

/// Trimming keeps a text free of line feeds, and leaves no whitespace at its
/// end.
pub proof fn lemma_trim_props(s: Seq<char>)
    ensures
        no_newline(s) ==> no_newline(trim(s)),
        trim(s).len() > 0 ==> !is_ws(trim(s).last()),
{
    lemma_trim_start_suffix(s);
    lemma_trim_end_prefix(trim_start(s));
    if no_newline(s) {
        let a = trim_start(s);
        assert forall|i: int| 0 <= i < trim(s).len() implies trim(s)[i] != '\n' by {
            assert(trim(s)[i] == a[i]);
            assert(a[i] == s[i + s.len() - a.len()]);
        }
    }
}

// ---------------------------------------------------------------------------
// Facts about decimal numbers and words
// ---------------------------------------------------------------------------

proof fn lemma_digit_char(d: nat)
    requires
        d < 10,
    ensures
        is_digit(digit_char(d)),
        digit_value(digit_char(d)) == d,
        !is_ws(digit_char(d)),
        digit_char(d) != '+',
{
}

/// The decimal text of a number is made of digits, holds no whitespace, and
/// reads back as the number.
pub proof fn lemma_decimal_digits(n: nat)
    ensures
        decimal(n).len() > 0,
        forall|i: int| 0 <= i < decimal(n).len() ==> is_digit(#[trigger] decimal(n)[i]),
        forall|i: int| 0 <= i < decimal(n).len() ==> !is_ws(#[trigger] decimal(n)[i]),
        decimal(n)[0] != '+',
        digits_value(decimal(n)) == n,
    decreases n,
{
    lemma_digit_char(n % 10);
    if n >= 10 {
        let p = decimal(n / 10);
        lemma_decimal_digits(n / 10);
        let c = digit_char(n % 10);
        assert(decimal(n) == p.push(c));
        assert(decimal(n).drop_last() =~= p);
        assert forall|i: int| 0 <= i < decimal(n).len() implies is_digit(#[trigger] decimal(n)[i])
            && !is_ws(decimal(n)[i]) by {
            if i < p.len() {
                assert(decimal(n)[i] == p[i]);
            }
        }
        assert(digits_value(decimal(n)) == digits_value(p) * 10 + digit_value(c));
        assert(digits_value(p) == n / 10);
        assert((n / 10) * 10 + n % 10 == n) by (nonlinear_arith);
        assert(digits_value(decimal(n)) == (n / 10) * 10 + n % 10);
    } else {
        assert(n % 10 == n);
        let d = decimal(n);
        assert(d =~= seq![digit_char(n)]);
        assert(d.drop_last() =~= Seq::<char>::empty());
        assert(digits_value(Seq::<char>::empty()) == 0);
        assert(d.last() == digit_char(n));
        assert(digits_value(d) == digits_value(d.drop_last()) * 10 + digit_value(d.last()));
    }
}

/// What `u32::from_str` makes of the decimal text of a `u32`: the number.
pub proof fn lemma_parse_decimal(n: u32)
    ensures
        parse_u32(decimal(n as nat)) == Some(n),
{
    lemma_decimal_digits(n as nat);
    let d = decimal(n as nat);
    assert(unsigned_digits(d) == d);
}

/// Characters without whitespace after text that ends a word stand as a word
/// not finished yet.
proof fn lemma_tail_word_extend(s: Seq<char>, x: Seq<char>)
    requires
        tail_word(s).len() == 0,
        forall|i: int| 0 <= i < x.len() ==> !is_ws(#[trigger] x[i]),
    ensures
        tail_word(s + x) == x,
        done_words(s + x) == done_words(s),
    decreases x.len(),
{
    if x.len() == 0 {
        assert(s + x =~= s);
    } else {
        let y = x.drop_last();
        assert forall|i: int| 0 <= i < y.len() implies !is_ws(#[trigger] y[i]) by {
            assert(y[i] == x[i]);
        }
        lemma_tail_word_extend(s, y);
        assert((s + x).drop_last() =~= s + y);
        assert((s + x).last() == x.last());
        assert(y.push(x.last()) =~= x);
    }
}

/// Text that ends a word, followed by one more word `x` and a whitespace
/// character, has the words of the text and then `x`.
pub proof fn lemma_words_push_word(s: Seq<char>, x: Seq<char>, w: char)
    requires
        tail_word(s).len() == 0,
        x.len() > 0,
        forall|i: int| 0 <= i < x.len() ==> !is_ws(#[trigger] x[i]),
        is_ws(w),
    ensures
        done_words(s + x + seq![w]) == done_words(s).push(x),
        tail_word(s + x + seq![w]).len() == 0,
{
    lemma_tail_word_extend(s, x);
    let t = s + x + seq![w];
    assert(t.drop_last() =~= s + x);
    assert(t.last() == w);
}

} // verus!
