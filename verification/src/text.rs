//! Character-level text helpers shared by the table parsers and normalizers.
//!
//! Texts are handled as sequences of Unicode scalar values. The spec functions
//! here state what `str::lines`, `str::trim` and `char::is_whitespace` compute,
//! and the executable functions work on a `Vec<char>` copy of the text through
//! index ranges.

use vstd::prelude::*;

verus! {

// ---------------------------------------------------------------------------
// Strings and character vectors
// ---------------------------------------------------------------------------

/// Appends one character to a `String` (std's `String::push`).
///
/// Trusted: the contract states that the view grows by exactly `c`, as the
/// std documentation of `String::push` describes.
#[verifier::external_body]
pub(crate) fn push_char(s: &mut String, c: char)
    ensures
        final(s)@ == old(s)@.push(c),
{
    s.push(c);
}

/// Collects the characters of a string slice into a vector.
pub fn str_to_chars(s: &str) -> (v: Vec<char>)
    ensures
        v@ == s@,
{
    let mut v: Vec<char> = Vec::new();
    for c in it: s.chars()
        invariant
            v@ == it.seq().take(it.index() as int),
    {
        v.push(c);
    }
    v
}

/// Appends the characters `v[lo..hi]` to `s`.
pub fn push_chars(s: &mut String, v: &Vec<char>, lo: usize, hi: usize)
    requires
        lo <= hi <= v.len(),
    ensures
        final(s)@ == old(s)@ + v@.subrange(lo as int, hi as int),
{
    let mut i = lo;
    while i < hi
        invariant
            lo <= i <= hi <= v.len(),
            s@ == old(s)@ + v@.subrange(lo as int, i as int),
        decreases hi - i,
    {
        push_char(s, v[i]);
        assert(v@.subrange(lo as int, i + 1) == v@.subrange(lo as int, i as int).push(v@[i as int]));
        i += 1;
    }
}

/// Builds a `String` from a vector of characters.
pub fn string_from_chars(v: &Vec<char>) -> (s: String)
    ensures
        s@ == v@,
{
    let mut s = String::new();
    push_chars(&mut s, v, 0, v.len());
    assert(v@.subrange(0, v@.len() as int) == v@);
    s
}

// ---------------------------------------------------------------------------
// Whitespace and trimming
// ---------------------------------------------------------------------------

/// The Unicode `White_Space` property, which `char::is_whitespace` tests.
pub open spec fn is_white_space(c: char) -> bool {
    let u = c as u32;
    ||| 0x09 <= u <= 0x0D
    ||| u == 0x20
    ||| u == 0x85
    ||| u == 0xA0
    ||| u == 0x1680
    ||| 0x2000 <= u <= 0x200A
    ||| u == 0x2028
    ||| u == 0x2029
    ||| u == 0x202F
    ||| u == 0x205F
    ||| u == 0x3000
}

/// Tests the Unicode `White_Space` property of `c`.
pub fn is_white_space_char(c: char) -> (r: bool)
    ensures
        r == is_white_space(c),
{
    let u = c as u32;
    (0x09 <= u && u <= 0x0D) || u == 0x20 || u == 0x85 || u == 0xA0 || u == 0x1680 || (0x2000
        <= u && u <= 0x200A) || u == 0x2028 || u == 0x2029 || u == 0x202F || u == 0x205F || u
        == 0x3000
}

/// `s` without its leading whitespace (`str::trim_start`).
pub open spec fn trim_start(s: Seq<char>) -> Seq<char>
    decreases s.len(),
{
    if s.len() > 0 && is_white_space(s[0]) {
        trim_start(s.drop_first())
    } else {
        s
    }
}

/// `s` without its trailing whitespace (`str::trim_end`).
pub open spec fn trim_end(s: Seq<char>) -> Seq<char>
    decreases s.len(),
{
    if s.len() > 0 && is_white_space(s.last()) {
        trim_end(s.drop_last())
    } else {
        s
    }
}

/// `s` without leading and trailing whitespace (`str::trim`).
pub open spec fn trim(s: Seq<char>) -> Seq<char> {
    trim_end(trim_start(s))
}

proof fn lemma_trim_start_at(s: Seq<char>, k: int)
    requires
        0 <= k <= s.len(),
        forall|i: int| 0 <= i < k ==> is_white_space(#[trigger] s[i]),
        k == s.len() || !is_white_space(s[k]),
    ensures
        trim_start(s) == s.skip(k),
    decreases k,
{
    if k == 0 {
        assert(s.skip(0) == s);
    } else {
        let t = s.drop_first();
        assert forall|i: int| 0 <= i < k - 1 implies is_white_space(#[trigger] t[i]) by {
            assert(t[i] == s[i + 1]);
        }
        lemma_trim_start_at(t, k - 1);
        assert(t.skip(k - 1) == s.skip(k));
    }
}

proof fn lemma_trim_end_at(s: Seq<char>, k: int)
    requires
        0 <= k <= s.len(),
        forall|i: int| k <= i < s.len() ==> is_white_space(#[trigger] s[i]),
        k == 0 || !is_white_space(s[k - 1]),
    ensures
        trim_end(s) == s.take(k),
    decreases s.len() - k,
{
    if k == s.len() {
        assert(s.take(k) == s);
    } else {
        let t = s.drop_last();
        assert forall|i: int| k <= i < t.len() implies is_white_space(#[trigger] t[i]) by {
            assert(t[i] == s[i]);
        }
        lemma_trim_end_at(t, k);
        assert(t.take(k) == s.take(k));
    }
}

/// Bounds of `v[lo..hi]` with its leading whitespace removed.
pub fn trim_start_bound(v: &Vec<char>, lo: usize, hi: usize) -> (a: usize)
    requires
        lo <= hi <= v.len(),
    ensures
        lo <= a <= hi,
        v@.subrange(a as int, hi as int) == trim_start(v@.subrange(lo as int, hi as int)),
{
    let mut a = lo;
    while a < hi && is_white_space_char(v[a])
        invariant
            lo <= a <= hi <= v.len(),
            forall|i: int| lo <= i < a ==> is_white_space(#[trigger] v@[i]),
        decreases hi - a,
    {
        a += 1;
    }
    proof {
        let s = v@.subrange(lo as int, hi as int);
        assert forall|i: int| 0 <= i < a - lo implies is_white_space(#[trigger] s[i]) by {
            assert(s[i] == v@[lo + i]);
        }
        lemma_trim_start_at(s, a - lo);
        assert(s.skip(a - lo) == v@.subrange(a as int, hi as int));
    }
    a
}

/// Bounds of `v[lo..hi]` with leading and trailing whitespace removed.
pub fn trim_bounds(v: &Vec<char>, lo: usize, hi: usize) -> (r: (usize, usize))
    requires
        lo <= hi <= v.len(),
    ensures
        lo <= r.0 <= r.1 <= hi,
        v@.subrange(r.0 as int, hi as int) == trim_start(v@.subrange(lo as int, hi as int)),
        v@.subrange(r.0 as int, r.1 as int) == trim(v@.subrange(lo as int, hi as int)),
{
    let a = trim_start_bound(v, lo, hi);
    let mut b = hi;
    while b > a && is_white_space_char(v[b - 1])
        invariant
            lo <= a <= b <= hi <= v.len(),
            forall|i: int| b <= i < hi ==> is_white_space(#[trigger] v@[i]),
        decreases b - a,
    {
        b -= 1;
    }
    proof {
        let s = v@.subrange(a as int, hi as int);
        assert forall|i: int| b - a <= i < s.len() implies is_white_space(#[trigger] s[i]) by {
            assert(s[i] == v@[a + i]);
        }
        lemma_trim_end_at(s, b - a);
        assert(s.take(b - a) == v@.subrange(a as int, b as int));
    }
    (a, b)
}

// ---------------------------------------------------------------------------
// Searching
// ---------------------------------------------------------------------------

/// Position of the first `c` in `s`, or `s.len()` when `c` does not occur.
pub open spec fn index_of(s: Seq<char>, c: char) -> nat
    decreases s.len(),
{
    if s.len() == 0 {
        0
    } else if s[0] == c {
        0
    } else {
        1 + index_of(s.drop_first(), c)
    }
}

proof fn lemma_index_of_at(s: Seq<char>, c: char, k: int)
    requires
        0 <= k <= s.len(),
        forall|i: int| 0 <= i < k ==> #[trigger] s[i] != c,
        k == s.len() || s[k] == c,
    ensures
        index_of(s, c) == k,
    decreases k,
{
    if k > 0 {
        let t = s.drop_first();
        assert forall|i: int| 0 <= i < k - 1 implies #[trigger] t[i] != c by {
            assert(t[i] == s[i + 1]);
        }
        lemma_index_of_at(t, c, k - 1);
    }
}

/// Position of the first `c` in `v[lo..hi]`, counted from `lo`; `hi` when absent.
pub fn find_char(v: &Vec<char>, lo: usize, hi: usize, c: char) -> (k: usize)
    requires
        lo <= hi <= v.len(),
    ensures
        lo <= k <= hi,
        k - lo == index_of(v@.subrange(lo as int, hi as int), c),
{
    let mut k = lo;
    while k < hi && v[k] != c
        invariant
            lo <= k <= hi <= v.len(),
            forall|i: int| lo <= i < k ==> #[trigger] v@[i] != c,
        decreases hi - k,
    {
        k += 1;
    }
    proof {
        let s = v@.subrange(lo as int, hi as int);
        assert forall|i: int| 0 <= i < k - lo implies #[trigger] s[i] != c by {
            assert(s[i] == v@[lo + i]);
        }
        lemma_index_of_at(s, c, k - lo);
    }
    k
}


// ---------------------------------------------------------------------------
// Lines
// ---------------------------------------------------------------------------

/// `s` without one trailing carriage return.
pub open spec fn strip_cr(s: Seq<char>) -> Seq<char> {
    if s.len() > 0 && s.last() == '\r' {
        s.drop_last()
    } else {
        s
    }
}

/// The lines of `t` as `str::lines` yields them: the text is cut after each
/// `'\n'`, the `'\n'` and one `'\r'` before it are dropped, and a final line
/// ending adds no empty line. A `'\r'` not followed by `'\n'` stays.
pub open spec fn lines(t: Seq<char>) -> Seq<Seq<char>>
    decreases t.len(),
{
    if t.len() == 0 {
        seq![]
    } else {
        let k = index_of(t, '\n') as int;
        if k < t.len() {
            seq![strip_cr(t.take(k))] + lines(t.skip(k + 1))
        } else {
            seq![t]
        }
    }
}

pub proof fn lemma_index_of_bound(s: Seq<char>, c: char)
    ensures
        index_of(s, c) <= s.len(),
        index_of(s, c) < s.len() ==> s[index_of(s, c) as int] == c,
        forall|i: int| 0 <= i < index_of(s, c) ==> s[i] != c,
    decreases s.len(),
{
    if s.len() > 0 && s[0] != c {
        lemma_index_of_bound(s.drop_first(), c);
        assert forall|i: int| 0 <= i < index_of(s, c) implies s[i] != c by {
            if i > 0 {
                assert(s[i] == s.drop_first()[i - 1]);
            }
        }
    }
}

/// Splits off the first line of `v[pos..]`: returns the end of the line's
/// content and the start of the rest of the text.
pub fn next_line(v: &Vec<char>, pos: usize) -> (r: (usize, usize))
    requires
        pos < v.len(),
    ensures
        pos <= r.0 <= v.len(),
        pos < r.1 <= v.len(),
        lines(v@.skip(pos as int)) == seq![v@.subrange(pos as int, r.0 as int)] + lines(
            v@.skip(r.1 as int),
        ),
{
    let len = v.len();
    let k = find_char(v, pos, len, '\n');
    let ghost t = v@.skip(pos as int);
    proof {
        assert(v@.subrange(pos as int, len as int) == t);
    }
    if k < len {
        let e = if k > pos && v[k - 1] == '\r' {
            k - 1
        } else {
            k
        };
        proof {
            assert(t.take(k - pos) == v@.subrange(pos as int, k as int));
            assert(t.skip(k - pos + 1) == v@.skip(k + 1));
            assert(strip_cr(t.take(k - pos)) == v@.subrange(pos as int, e as int));
        }
        (e, k + 1)
    } else {
        proof {
            assert(v@.skip(len as int) == Seq::<char>::empty());
            assert(lines(Seq::<char>::empty()) == Seq::<Seq<char>>::empty());
            assert(seq![t] + Seq::<Seq<char>>::empty() == seq![t]);
        }
        (len, len)
    }
}

// ---------------------------------------------------------------------------
// Mapping lines: `source<TAB>target`
// ---------------------------------------------------------------------------

/// A line that holds nothing but whitespace, or whose first non-whitespace
/// character is `#`.
pub open spec fn is_blank_or_comment(line: Seq<char>) -> bool {
    trim(line).len() == 0 || (trim_start(line).len() > 0 && trim_start(line)[0] == '#')
}

/// Position of the first tab of a line.
pub open spec fn first_tab(line: Seq<char>) -> int {
    index_of(line, '\t') as int
}

/// Whether a line has a second column.
pub open spec fn has_target_column(line: Seq<char>) -> bool {
    first_tab(line) < line.len()
}

/// What follows the first tab of a line.
pub open spec fn after_first_tab(line: Seq<char>) -> Seq<char> {
    line.skip(first_tab(line) + 1)
}

/// Whether a line has a third column.
pub open spec fn has_extra_column(line: Seq<char>) -> bool {
    has_target_column(line) && index_of(after_first_tab(line), '\t') < after_first_tab(line).len()
}

/// The trimmed first column of a line.
pub open spec fn source_column(line: Seq<char>) -> Seq<char> {
    trim(line.take(first_tab(line)))
}

/// The trimmed second column of a two-column line.
pub open spec fn target_column(line: Seq<char>) -> Seq<char> {
    trim(after_first_tab(line))
}

/// How one line of a mapping table splits into columns.
pub enum PairScan {
    /// A blank or comment line.
    Skip,
    /// No tab on the line.
    MissingTarget,
    /// Two or more tabs on the line.
    TooManyColumns,
    /// Bounds of the trimmed source and target columns.
    Fields { src_lo: usize, src_hi: usize, dst_lo: usize, dst_hi: usize },
}

/// Splits the line `v[lo..hi]` into its trimmed `source` and `target` columns.
pub fn scan_pair_line(v: &Vec<char>, lo: usize, hi: usize) -> (r: PairScan)
    requires
        lo <= hi <= v.len(),
    ensures
        ({
            let line = v@.subrange(lo as int, hi as int);
            match r {
                PairScan::Skip => is_blank_or_comment(line),
                PairScan::MissingTarget => !is_blank_or_comment(line) && !has_target_column(line),
                PairScan::TooManyColumns => !is_blank_or_comment(line) && has_extra_column(line),
                PairScan::Fields { src_lo, src_hi, dst_lo, dst_hi } => {
                    &&& !is_blank_or_comment(line)
                    &&& has_target_column(line)
                    &&& !has_extra_column(line)
                    &&& src_lo <= src_hi <= v.len()
                    &&& dst_lo <= dst_hi <= v.len()
                    &&& v@.subrange(src_lo as int, src_hi as int) == source_column(line)
                    &&& v@.subrange(dst_lo as int, dst_hi as int) == target_column(line)
                },
            }
        }),
{
    let ghost line = v@.subrange(lo as int, hi as int);
    let (ta, tb) = trim_bounds(v, lo, hi);
    if ta == tb || v[ta] == '#' {
        return PairScan::Skip;
    }
    let t1 = find_char(v, lo, hi, '\t');
    if t1 == hi {
        return PairScan::MissingTarget;
    }
    proof {
        assert(line.take(t1 - lo) == v@.subrange(lo as int, t1 as int));
        assert(after_first_tab(line) == v@.subrange(t1 + 1, hi as int));
    }
    let t2 = find_char(v, t1 + 1, hi, '\t');
    if t2 < hi {
        return PairScan::TooManyColumns;
    }
    let (sa, sb) = trim_bounds(v, lo, t1);
    let (da, db) = trim_bounds(v, t1 + 1, hi);
    PairScan::Fields { src_lo: sa, src_hi: sb, dst_lo: da, dst_hi: db }
}

// ---------------------------------------------------------------------------
// Numbers
// ---------------------------------------------------------------------------

/// The digit character for `d < 16` (upper-case for ten and above).
pub open spec fn digit_char(d: nat) -> char {
    seq!['0', '1', '2', '3', '4', '5', '6', '7', '8', '9', 'A', 'B', 'C', 'D', 'E', 'F'][d as int]
}

/// The decimal representation of `n`, as `{}` formats an integer.
pub open spec fn decimal(n: nat) -> Seq<char>
    decreases n,
{
    if n < 10 {
        seq![digit_char(n)]
    } else {
        decimal(n / 10).push(digit_char(n % 10))
    }
}

/// The upper-case hexadecimal representation of `n`.
pub open spec fn hexadecimal(n: nat) -> Seq<char>
    decreases n,
{
    if n < 16 {
        seq![digit_char(n)]
    } else {
        hexadecimal(n / 16).push(digit_char(n % 16))
    }
}

/// Upper-case hexadecimal of `n`, zero-padded to at least four digits (`{:04X}`).
pub open spec fn hex4(n: nat) -> Seq<char> {
    let h = hexadecimal(n);
    if h.len() < 4 {
        Seq::new((4 - h.len()) as nat, |i: int| '0') + h
    } else {
        h
    }
}

fn digit(d: u32) -> (c: char)
    requires
        d < 16,
    ensures
        c == digit_char(d as nat),
{
    match d {
        0 => '0',
        1 => '1',
        2 => '2',
        3 => '3',
        4 => '4',
        5 => '5',
        6 => '6',
        7 => '7',
        8 => '8',
        9 => '9',
        10 => 'A',
        11 => 'B',
        12 => 'C',
        13 => 'D',
        14 => 'E',
        _ => 'F',
    }
}

/// Appends the decimal representation of `n` to `s`.
pub fn push_decimal(s: &mut String, n: usize)
    ensures
        final(s)@ == old(s)@ + decimal(n as nat),
{
    let mut q = n;
    let mut acc: Vec<char> = Vec::new();
    while q >= 10
        invariant
            decimal(n as nat) == decimal(q as nat) + acc@,
        decreases q,
    {
        let d = digit((q % 10) as u32);
        proof {
            assert(decimal(q as nat) == decimal((q / 10) as nat).push(d));
            assert(decimal((q / 10) as nat).push(d) + acc@ == decimal((q / 10) as nat) + (seq![d]
                + acc@));
        }
        acc.insert(0, d);
        q = q / 10;
    }
    let d = digit(q as u32);
    acc.insert(0, d);
    push_chars(s, &acc, 0, acc.len());
    assert(acc@.subrange(0, acc@.len() as int) == acc@);
}

/// Appends `n` in upper-case hexadecimal, zero-padded to four digits, to `s`.
pub fn push_hex4(s: &mut String, n: u32)
    ensures
        final(s)@ == old(s)@ + hex4(n as nat),
{
    let mut q = n;
    let mut acc: Vec<char> = Vec::new();
    while q >= 16
        invariant
            hexadecimal(n as nat) == hexadecimal(q as nat) + acc@,
        decreases q,
    {
        let d = digit(q % 16);
        proof {
            assert(hexadecimal(q as nat) == hexadecimal((q / 16) as nat).push(d));
            assert(hexadecimal((q / 16) as nat).push(d) + acc@ == hexadecimal((q / 16) as nat) + (
            seq![d] + acc@));
        }
        acc.insert(0, d);
        q = q / 16;
    }
    let d = digit(q);
    acc.insert(0, d);
    while acc.len() < 4
        invariant
            acc@.len() <= 4 ==> (hex4(n as nat) == Seq::new((4 - acc@.len()) as nat, |i: int| '0')
                + acc@),
            acc@.len() > 4 ==> hex4(n as nat) == acc@,
        decreases 4 - acc.len(),
    {
        let ghost old_acc = acc@;
        acc.insert(0, '0');
        assert(Seq::new((4 - old_acc.len()) as nat, |i: int| '0') + old_acc == Seq::new(
            (4 - acc@.len()) as nat,
            |i: int| '0',
        ) + acc@);
    }
    assert(Seq::new(0, |i: int| '0') + acc@ == acc@);
    push_chars(s, &acc, 0, acc.len());
    assert(acc@.subrange(0, acc@.len() as int) == acc@);
}

// ---------------------------------------------------------------------------
// Line-numbered error messages
// ---------------------------------------------------------------------------

/// `line {line_no}: {msg}`
pub open spec fn line_message(line_no: nat, msg: Seq<char>) -> Seq<char> {
    "line "@ + decimal(line_no) + ": "@ + msg
}

/// Builds the message `line {line_no}: {msg}`.
pub fn line_error(line_no: usize, msg: &str) -> (e: String)
    ensures
        e@ == line_message(line_no as nat, msg@),
{
    let mut s = String::new();
    s.append("line ");
    push_decimal(&mut s, line_no);
    s.append(": ");
    s.append(msg);
    s
}

/// The single character of a trimmed column, or the message for a column
/// that is empty (`empty {field}`) or longer than one character
/// (`{field}{too_long}`).
pub open spec fn single_char_result(
    column: Seq<char>,
    line_no: nat,
    field: Seq<char>,
    too_long: Seq<char>,
) -> Result<char, Seq<char>> {
    if column.len() == 0 {
        Err(line_message(line_no, "empty "@ + field))
    } else if column.len() > 1 {
        Err(line_message(line_no, field + too_long))
    } else {
        Ok(column[0])
    }
}

/// Reads the column `v[lo..hi]` as exactly one character.
pub fn single_char(
    v: &Vec<char>,
    lo: usize,
    hi: usize,
    line_no: usize,
    field: &str,
    too_long: &str,
) -> (r: Result<char, String>)
    requires
        lo <= hi <= v.len(),
    ensures
        match (r, single_char_result(v@.subrange(lo as int, hi as int), line_no as nat, field@, too_long@)) {
            (Ok(c), Ok(d)) => c == d,
            (Err(e), Err(m)) => e@ == m,
            _ => false,
        },
{
    if lo == hi {
        let mut msg = String::new();
        msg.append("empty ");
        msg.append(field);
        return Err(line_error(line_no, msg.as_str()));
    }
    if hi - lo > 1 {
        let mut msg = String::new();
        msg.append(field);
        msg.append(too_long);
        return Err(line_error(line_no, msg.as_str()));
    }
    Ok(v[lo])
}

// ---------------------------------------------------------------------------
// Loading a table line by line
// ---------------------------------------------------------------------------

/// Applies `step` to each line in order, numbering lines from 1, and stops at
/// the first error.
pub open spec fn fold_lines<S>(
    ls: Seq<Seq<char>>,
    init: S,
    step: spec_fn(S, Seq<char>, nat) -> Result<S, Seq<char>>,
) -> Result<S, Seq<char>>
    decreases ls.len(),
{
    if ls.len() == 0 {
        Ok(init)
    } else {
        match fold_lines(ls.drop_last(), init, step) {
            Ok(s) => step(s, ls.last(), ls.len()),
            Err(e) => Err(e),
        }
    }
}

/// Once loading has failed on a prefix, it fails with the same message on the whole.
pub proof fn lemma_fold_lines_error<S>(
    ls: Seq<Seq<char>>,
    k: int,
    init: S,
    step: spec_fn(S, Seq<char>, nat) -> Result<S, Seq<char>>,
    e: Seq<char>,
)
    requires
        0 <= k <= ls.len(),
        fold_lines(ls.take(k), init, step) == Err::<S, Seq<char>>(e),
    ensures
        fold_lines(ls, init, step) == Err::<S, Seq<char>>(e),
    decreases ls.len() - k,
{
    if k == ls.len() {
        assert(ls.take(k) == ls);
    } else {
        assert(ls.take(k + 1).drop_last() == ls.take(k));
        lemma_fold_lines_error(ls, k + 1, init, step, e);
    }
}

/// One more line of the fold.
pub proof fn lemma_fold_lines_step<S>(
    ls: Seq<Seq<char>>,
    k: int,
    init: S,
    step: spec_fn(S, Seq<char>, nat) -> Result<S, Seq<char>>,
)
    requires
        0 <= k < ls.len(),
    ensures
        fold_lines(ls.take(k + 1), init, step) == match fold_lines(ls.take(k), init, step) {
            Ok(s) => step(s, ls[k], (k + 1) as nat),
            Err(e) => Err(e),
        },
{
    assert(ls.take(k + 1).drop_last() == ls.take(k));
    assert(ls.take(k + 1).last() == ls[k]);
}

/// A property of the state that every successful step keeps holds of every
/// successful result of the fold.
pub proof fn lemma_fold_lines_preserves<S>(
    ls: Seq<Seq<char>>,
    init: S,
    step: spec_fn(S, Seq<char>, nat) -> Result<S, Seq<char>>,
    inv: spec_fn(S) -> bool,
)
    requires
        inv(init),
        forall|s: S, line: Seq<char>, n: nat|
            inv(s) && (#[trigger] step(s, line, n)) is Ok ==> inv(step(s, line, n)->Ok_0),
    ensures
        fold_lines(ls, init, step) matches Ok(s) ==> inv(s),
    decreases ls.len(),
{
    if ls.len() > 0 {
        lemma_fold_lines_preserves(ls.drop_last(), init, step, inv);
    }
}

/// There are no more lines than characters.
pub proof fn lemma_lines_len(t: Seq<char>)
    ensures
        lines(t).len() <= t.len(),
    decreases t.len(),
{
    if t.len() > 0 {
        lemma_index_of_bound(t, '\n');
        let k = index_of(t, '\n') as int;
        if k < t.len() {
            lemma_lines_len(t.skip(k + 1));
        }
    }
}

/// The line `src<TAB>dst`, with neither character whitespace and `src` not
/// `#`, splits into the one-character columns `src` and `dst`.
pub proof fn lemma_two_column_line(src: char, dst: char)
    requires
        !is_white_space(src),
        !is_white_space(dst),
        src != '#',
    ensures
        !is_blank_or_comment(seq![src, '\t', dst]),
        has_target_column(seq![src, '\t', dst]),
        !has_extra_column(seq![src, '\t', dst]),
        source_column(seq![src, '\t', dst]) == seq![src],
        target_column(seq![src, '\t', dst]) == seq![dst],
{
    let line = seq![src, '\t', dst];
    assert(is_white_space('\t'));
    assert(trim_start(line) == line);
    assert(trim_end(line) == line);
    assert(line.drop_first() =~= seq!['\t', dst]);
    assert(index_of(line.drop_first(), '\t') == 0);
    assert(first_tab(line) == 1);
    let rest = after_first_tab(line);
    assert(rest =~= seq![dst]);
    assert(dst != '\t');
    assert(rest.drop_first() =~= Seq::<char>::empty());
    assert(index_of(Seq::<char>::empty(), '\t') == 0);
    assert(index_of(rest, '\t') == 1);
    let head = line.take(1);
    assert(head =~= seq![src]);
    assert(trim_start(head) == head);
    assert(trim_end(head) == head);
    assert(trim_start(rest) == rest);
    assert(trim_end(rest) == rest);
}

/// A text that is one line `line` ended by `'\n'` has that line as its only line.
pub proof fn lemma_single_line_text(line: Seq<char>)
    requires
        forall|i: int| 0 <= i < line.len() ==> #[trigger] line[i] != '\n',
        line.len() == 0 || line.last() != '\r',
    ensures
        lines(line.push('\n')) == seq![line],
{
    let t = line.push('\n');
    assert forall|i: int| 0 <= i < line.len() implies #[trigger] t[i] != '\n' by {
        assert(t[i] == line[i]);
    }
    lemma_index_of_at(t, '\n', line.len() as int);
    assert(t.take(line.len() as int) =~= line);
    assert(t.skip(line.len() as int + 1) =~= Seq::<char>::empty());
    assert(strip_cr(line) == line);
    assert(lines(Seq::<char>::empty()) == Seq::<Seq<char>>::empty());
    assert(seq![line] + Seq::<Seq<char>>::empty() =~= seq![line]);
}

/// Folding over a single line is one step on line number 1.
pub proof fn lemma_fold_single_line<S>(
    line: Seq<char>,
    init: S,
    step: spec_fn(S, Seq<char>, nat) -> Result<S, Seq<char>>,
)
    ensures
        fold_lines(seq![line], init, step) == step(init, line, 1),
{
    let ls = seq![line];
    assert(ls.drop_last() =~= Seq::<Seq<char>>::empty());
    assert(fold_lines(Seq::<Seq<char>>::empty(), init, step) == Ok::<S, Seq<char>>(init));
    assert(ls.last() == line);
}

// ---------------------------------------------------------------------------
// Scalar values
// ---------------------------------------------------------------------------

/// Whether `u` is a Unicode scalar value (not a surrogate, at most `U+10FFFF`).
pub open spec fn is_scalar_value(u: u32) -> bool {
    u < 0xD800 || (0xE000 <= u && u <= 0x10FFFF)
}

/// The character with scalar value `u` (std's `char::from_u32`).
///
/// Trusted: as documented for `char::from_u32`, the result is `Some` exactly
/// for scalar values, and then holds the character with that value.
#[verifier::external_body]
pub(crate) fn char_from_u32(u: u32) -> (r: Option<char>)
    ensures
        r is Some <==> is_scalar_value(u),
        r matches Some(c) ==> c as u32 == u,
{
    char::from_u32(u)
}

} // verus!
