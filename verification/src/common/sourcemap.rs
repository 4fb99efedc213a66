//! Source spans and the index that turns byte offsets into lines and columns.
use vstd::prelude::*;
use vstd::string::*;
use vstd::utf8::*;
use crate::common::text::{byte_offset, char_width, decimal, lemma_byte_offset_increases, lemma_byte_offset_is_encoded_len, push_decimal, to_chars};

verus! {

/// Index of the first line break at or after `from`, or the length of `s`
/// where there is none.
pub open spec fn line_end(s: Seq<char>, from: int) -> int
    decreases s.len() - from,
{
    if from >= s.len() {
        s.len() as int
    } else if s[from] == '\n' {
        from
    } else {
        line_end(s, from + 1)
    }
}

/// Index of the first code point of line `k` (counted from 0). It is past
/// the end of `s` where `s` has no such line.
pub open spec fn line_start(s: Seq<char>, k: nat) -> int
    decreases k,
{
    if k == 0 {
        0
    } else {
        line_end(s, line_start(s, (k - 1) as nat)) + 1
    }
}

/// Number of line breaks of `s` at or after index `from`.
pub open spec fn breaks_from(s: Seq<char>, from: int) -> nat
    decreases s.len() - from,
{
    if from >= s.len() {
        0
    } else if s[from] == '\n' {
        1 + breaks_from(s, from + 1)
    } else {
        breaks_from(s, from + 1)
    }
}

/// Number of lines of `s`: one more than its line breaks.
pub open spec fn line_count(s: Seq<char>) -> nat {
    1 + breaks_from(s, 0)
}

/// Line and column, both counted from 1, of the code point with index `i`:
/// what a reader gets who starts at `1:1`, steps one column per code point
/// and goes to the start of the next line after each line break.
pub open spec fn line_col(s: Seq<char>, i: int) -> (nat, nat)
    decreases i,
{
    if i <= 0 {
        (1, 1)
    } else {
        let before = line_col(s, i - 1);
        if s[i - 1] == '\n' {
            (before.0 + 1, 1)
        } else {
            (before.0, before.1 + 1)
        }
    }
}

/// Index of the code point that holds byte `b`, searched from index `i` on;
/// the length of `s` where `b` lies past the end.
pub open spec fn char_index_from(s: Seq<char>, b: int, i: int) -> int
    decreases s.len() - i,
{
    if i >= s.len() || b < byte_offset(s, i + 1) {
        i
    } else {
        char_index_from(s, b, i + 1)
    }
}

/// Index of the code point that holds byte `b` of the UTF-8 encoding of `s`.
pub open spec fn char_index(s: Seq<char>, b: int) -> int {
    char_index_from(s, b, 0)
}

/// Line and column of the code point that holds byte `b`.
pub open spec fn position(s: Seq<char>, b: int) -> (nat, nat) {
    line_col(s, char_index(s, b))
}

/// Where a span starts and where its last byte lies.
pub open spec fn positions(s: Seq<char>, start: int, end: int) -> ((nat, nat), (nat, nat)) {
    (position(s, start), position(s, if end > 0 { end - 1 } else { end }))
}

/// The label of a span: `startline:startcol-endline:endcol`, unpadded.
pub open spec fn label(p: ((nat, nat), (nat, nat))) -> Seq<char> {
    decimal(p.0.0) + seq![':'] + decimal(p.0.1) + seq!['-'] + decimal(p.1.0) + seq![':']
        + decimal(p.1.1)
}

/// What `line_end` finds: the first line break at or after `from`.
pub proof fn lemma_line_end(s: Seq<char>, from: int)
    requires
        0 <= from,
    ensures
        from <= s.len() ==> from <= line_end(s, from) <= s.len(),
        from > s.len() ==> line_end(s, from) == s.len(),
        line_end(s, from) < s.len() ==> s[line_end(s, from)] == '\n',
        forall|j: int| from <= j < line_end(s, from) ==> s[j] != '\n',
    decreases s.len() - from,
{
    if from < s.len() && s[from] != '\n' {
        lemma_line_end(s, from + 1);
    }
}

/// `e` is the end of the line that holds `from` when no line break lies
/// between them and `e` is a line break or the end of `s`.
pub proof fn lemma_line_end_is(s: Seq<char>, from: int, e: int)
    requires
        0 <= from <= e <= s.len(),
        forall|j: int| from <= j < e ==> s[j] != '\n',
        e == s.len() || s[e] == '\n',
    ensures
        line_end(s, from) == e,
    decreases e - from,
{
    if from < e {
        lemma_line_end_is(s, from + 1, e);
    }
}

/// Lines start one after the other.
pub proof fn lemma_line_start_increases(s: Seq<char>, j: nat, k: nat)
    requires
        j <= k,
    ensures
        0 <= line_start(s, j),
        line_start(s, j) + (k - j) <= line_start(s, k) || line_start(s, k) > s.len(),
        line_start(s, j) <= line_start(s, k) || line_start(s, j) > s.len(),
    decreases k,
{
    if k > 0 {
        lemma_line_start_increases(s, 0, (k - 1) as nat);
        lemma_line_end(s, line_start(s, (k - 1) as nat));
        if j < k {
            lemma_line_start_increases(s, j, (k - 1) as nat);
        }
    }
}

/// Within line `k` the column counts the code points from the line's start.
pub proof fn lemma_line_col_in_line(s: Seq<char>, k: nat, i: int)
    requires
        line_start(s, k) <= i <= line_end(s, line_start(s, k)),
        line_start(s, k) <= s.len(),
    ensures
        line_col(s, i) == ((k + 1) as nat, (i - line_start(s, k) + 1) as nat),
    decreases i,
{
    lemma_line_start_increases(s, 0, k);
    lemma_line_end(s, line_start(s, k));
    if i == line_start(s, k) {
        if k > 0 {
            let prev = line_start(s, (k - 1) as nat);
            lemma_line_start_increases(s, 0, (k - 1) as nat);
            lemma_line_end(s, prev);
            lemma_line_col_in_line(s, (k - 1) as nat, i - 1);
        }
    } else {
        lemma_line_col_in_line(s, k, i - 1);
    }
}

/// The code point that holds byte `b` is the one that starts at or before
/// `b` and whose successor starts after it.
pub proof fn lemma_char_index_is(s: Seq<char>, b: int, i: int)
    requires
        0 <= i <= s.len(),
        byte_offset(s, i) <= b,
        i == s.len() || b < byte_offset(s, i + 1),
    ensures
        char_index(s, b) == i,
{
    lemma_char_index_from(s, b, 0, i);
}

proof fn lemma_char_index_from(s: Seq<char>, b: int, j: int, i: int)
    requires
        0 <= j <= i <= s.len(),
        byte_offset(s, i) <= b,
        i == s.len() || b < byte_offset(s, i + 1),
    ensures
        char_index_from(s, b, j) == i,
    decreases i - j,
{
    if j < i {
        lemma_byte_offset_increases(s, j + 1, i);
        lemma_char_index_from(s, b, j + 1, i);
    }
}

/// A span of the source text, in byte offsets: from `start` up to, not
/// including, `end`.
#[derive(Clone, Copy, Debug, PartialEq, Eq, Structural)]
pub struct SourcePos {
    pub start: usize,
    pub end: usize,
}

impl SourcePos {
    /// The span from byte `start` to byte `end`.
    pub fn new(start: usize, end: usize) -> (r: SourcePos)
        ensures
            r == (SourcePos { start, end }),
    {
        SourcePos { start, end }
    }

    /// The two byte offsets of the span.
    pub fn get_byte_offsets(&self) -> (r: (usize, usize))
        ensures
            r == (self.start, self.end),
    {
        (self.start, self.end)
    }

    /// Line and column of the span's first byte and of its last one.
    pub fn get_positions(&self, map: &CharMapping) -> (r: ((usize, usize), (usize, usize)))
        ensures
            ((r.0.0 as nat, r.0.1 as nat), (r.1.0 as nat, r.1.1 as nat)) == positions(
                map@,
                self.start as int,
                self.end as int,
            ),
    {
        let first = map.get_position(self.start);
        let last = map.get_position(if self.end > 0 { self.end - 1 } else { self.end });
        (first, last)
    }
}

/// The source text with two tables: the byte offset at which each code point
/// starts, and the index of the first code point of each line.
pub struct CharMapping {
    chars: Vec<char>,
    offsets: Vec<usize>,
    lines: Vec<usize>,
}

/// Index of the last entry of `table` that is at most `x`.
fn last_at_most(table: &Vec<usize>, x: usize) -> (k: usize)
    requires
        table@.len() > 0,
        table@[0] <= x,
        forall|i: int, j: int| 0 <= i < j < table@.len() ==> table@[i] < table@[j],
    ensures
        k < table@.len(),
        table@[k as int] <= x,
        k + 1 == table@.len() || x < table@[k + 1],
{
    let mut lo: usize = 0;
    let mut hi: usize = table.len();
    while hi - lo > 1
        invariant
            lo < hi <= table@.len(),
            table@[lo as int] <= x,
            hi == table@.len() || x < table@[hi as int],
            forall|i: int, j: int| 0 <= i < j < table@.len() ==> table@[i] < table@[j],
        decreases hi - lo,
    {
        let mid: usize = lo + (hi - lo) / 2;
        if table[mid] <= x {
            lo = mid;
        } else {
            hi = mid;
        }
    }
    lo
}

impl View for CharMapping {
    type V = Seq<char>;

    closed spec fn view(&self) -> Seq<char> {
        self.chars@
    }
}

impl CharMapping {
    #[verifier::type_invariant]
    spec fn wf(&self) -> bool {
        &&& self.offsets@.len() == self.chars@.len() + 1
        &&& forall|i: int|
            0 <= i <= self.chars@.len() ==> #[trigger] self.offsets@[i] == byte_offset(self.chars@, i)
        &&& self.lines@.len() >= 1
        &&& forall|k: int|
            0 <= k < self.lines@.len() ==> #[trigger] self.lines@[k] == line_start(
                self.chars@,
                k as nat,
            )
        &&& self.lines@[self.lines@.len() - 1] <= self.chars@.len()
        &&& line_end(self.chars@, self.lines@[self.lines@.len() - 1] as int) == self.chars@.len()
    }

    proof fn lemma_tables(&self)
        requires
            self.wf(),
        ensures
            self.lines@.len() == line_count(self.chars@),
            forall|k: int|
                0 <= k < self.lines@.len() ==> #[trigger] self.lines@[k] == line_start(
                    self.chars@,
                    k as nat,
                ) && self.lines@[k] <= self.chars@.len(),
            forall|i: int, j: int|
                0 <= i < j < self.lines@.len() ==> self.lines@[i] < self.lines@[j],
            forall|i: int, j: int|
                0 <= i < j < self.offsets@.len() ==> self.offsets@[i] < self.offsets@[j],
    {
        let s = self.chars@;
        let last = (self.lines@.len() - 1) as nat;
        assert(self.lines@[last as int] == line_start(s, last));
        lemma_line_count(s, last);
        assert forall|k: int| 0 <= k < self.lines@.len() implies #[trigger] self.lines@[k]
            == line_start(s, k as nat) && self.lines@[k] <= s.len() by {
            lemma_line_start_increases(s, k as nat, last);
        }
        assert forall|i: int, j: int| 0 <= i < j < self.lines@.len() implies self.lines@[i]
            < self.lines@[j] by {
            assert(self.lines@[i] == line_start(s, i as nat));
            assert(self.lines@[j] == line_start(s, j as nat));
            lemma_line_start_increases(s, i as nat, j as nat);
        }
        assert forall|i: int, j: int| 0 <= i < j < self.offsets@.len() implies self.offsets@[i]
            < self.offsets@[j] by {
            lemma_byte_offset_increases(s, i, j);
        }
    }

    /// The index of `src`.
    pub fn new(src: &str) -> (r: CharMapping)
        ensures
            r@ == src@,
    {
        let chars = to_chars(src);
        let n: usize = chars.len();
        let bytes = src.as_bytes();
        let total: usize = bytes.len();
        let mut offsets: Vec<usize> = Vec::new();
        let mut lines: Vec<usize> = Vec::new();
        offsets.push(0);
        lines.push(0);
        let mut off: usize = 0;
        let mut i: usize = 0;
        proof {
            lemma_byte_offset_is_encoded_len(chars@, n as int);
            assert(chars@.take(n as int) =~= chars@);
        }
        while i < n
            invariant
                n == chars@.len(),
                i <= n,
                byte_offset(chars@, n as int) == total,
                off == byte_offset(chars@, i as int),
                offsets@.len() == i + 1,
                forall|j: int| 0 <= j <= i ==> #[trigger] offsets@[j] == byte_offset(chars@, j),
                lines@.len() >= 1,
                forall|k: int|
                    0 <= k < lines@.len() ==> #[trigger] lines@[k] == line_start(chars@, k as nat),
                lines@[lines@.len() - 1] <= i,
                forall|j: int| lines@[lines@.len() - 1] <= j < i ==> chars@[j] != '\n',
            decreases n - i,
        {
            proof {
                lemma_byte_offset_increases(chars@, i + 1, n as int);
            }
            off = off + char_width(chars[i]);
            offsets.push(off);
            if chars[i] == '\n' {
                proof {
                    lemma_line_end_is(chars@, lines@[lines@.len() - 1] as int, i as int);
                }
                lines.push(i + 1);
            }
            i = i + 1;
        }
        proof {
            lemma_line_end_is(chars@, lines@[lines@.len() - 1] as int, n as int);
        }
        CharMapping { chars, offsets, lines }
    }

    /// Number of code points of the text.
    pub fn len(&self) -> (n: usize)
        ensures
            n == self@.len(),
    {
        self.chars.len()
    }

    /// The code point with index `i`.
    pub fn char_at(&self, i: usize) -> (c: char)
        requires
            i < self@.len(),
        ensures
            c == self@[i as int],
    {
        self.chars[i]
    }

    /// The code points of the text.
    pub fn chars(&self) -> (v: &Vec<char>)
        ensures
            v@ == self@,
    {
        &self.chars
    }

    /// Byte offset at which the code point with index `i` starts.
    pub fn byte_at(&self, i: usize) -> (b: usize)
        requires
            i <= self@.len(),
        ensures
            b == byte_offset(self@, i as int),
    {
        proof {
            use_type_invariant(self);
        }
        self.offsets[i]
    }

    /// Number of lines of the text.
    pub fn line_count(&self) -> (n: usize)
        ensures
            n == line_count(self@),
            n >= 1,
    {
        proof {
            use_type_invariant(self);
            self.lemma_tables();
        }
        self.lines.len()
    }

    /// Index of the first code point of line `k`.
    pub fn line_start(&self, k: usize) -> (i: usize)
        requires
            k < line_count(self@),
        ensures
            i == line_start(self@, k as nat),
            i <= self@.len(),
    {
        proof {
            use_type_invariant(self);
            self.lemma_tables();
        }
        self.lines[k]
    }

    /// Index one past the last code point of line `k`, its line break not
    /// counted.
    pub fn line_end(&self, k: usize) -> (i: usize)
        requires
            k < line_count(self@),
        ensures
            i == line_end(self@, line_start(self@, k as nat)),
            line_start(self@, k as nat) <= i <= self@.len(),
    {
        proof {
            use_type_invariant(self);
            self.lemma_tables();
            assert(self.lines@[k as int] == line_start(self.chars@, k as nat));
            lemma_line_end(self.chars@, line_start(self.chars@, k as nat));
        }
        let count: usize = self.lines.len();
        if k + 1 < count {
            proof {
                assert(self.lines@[k + 1] == line_start(self.chars@, (k + 1) as nat));
            }
            self.lines[k + 1] - 1
        } else {
            self.chars.len()
        }
    }

    /// Line and column, counted from 1, of the code point that holds byte
    /// `byte_offset`.
    pub fn get_position(&self, byte_offset: usize) -> (r: (usize, usize))
        ensures
            (r.0 as nat, r.1 as nat) == position(self@, byte_offset as int),
    {
        proof {
            use_type_invariant(self);
            self.lemma_tables();
        }
        let chars: usize = self.offsets.len();
        let count: usize = self.lines.len();
        let i = last_at_most(&self.offsets, byte_offset);
        let l = last_at_most(&self.lines, i);
        proof {
            let s = self.chars@;
            lemma_char_index_is(s, byte_offset as int, i as int);
            assert(self.lines@[l as int] == line_start(s, l as nat));
            lemma_line_end(s, line_start(s, l as nat));
            if l + 1 < self.lines@.len() {
                assert(self.lines@[l + 1] == line_start(s, (l + 1) as nat));
            }
            lemma_line_col_in_line(s, l as nat, i as int);
        }
        (l + 1, i - self.lines[l] + 1)
    }
}

/// A text whose last line is line `k` has `k + 1` lines.
pub proof fn lemma_line_count(s: Seq<char>, k: nat)
    requires
        line_start(s, k) <= s.len(),
        line_end(s, line_start(s, k)) == s.len(),
    ensures
        line_count(s) == k + 1,
{
    lemma_breaks_from_line(s, 0, k);
}

proof fn lemma_breaks_skip(s: Seq<char>, from: int, e: int)
    requires
        0 <= from <= e <= s.len(),
        forall|j: int| from <= j < e ==> s[j] != '\n',
    ensures
        breaks_from(s, from) == breaks_from(s, e),
    decreases e - from,
{
    if from < e {
        lemma_breaks_skip(s, from + 1, e);
    }
}

proof fn lemma_breaks_from_line(s: Seq<char>, j: nat, k: nat)
    requires
        j <= k,
        line_start(s, k) <= s.len(),
        line_end(s, line_start(s, k)) == s.len(),
    ensures
        breaks_from(s, line_start(s, j)) == k - j,
    decreases k - j,
{
    lemma_line_start_increases(s, 0, j);
    lemma_line_start_increases(s, j, k);
    lemma_line_end(s, line_start(s, j));
    lemma_breaks_skip(s, line_start(s, j), line_end(s, line_start(s, j)));
    if j < k {
        lemma_line_start_increases(s, j + 1, k);
        lemma_breaks_from_line(s, j + 1, k);
    }
}

/// Appends the label of the positions `p` to `out`.
pub fn push_label(out: &mut Vec<char>, p: ((usize, usize), (usize, usize)))
    ensures
        final(out)@ == old(out)@ + label(
            ((p.0.0 as nat, p.0.1 as nat), (p.1.0 as nat, p.1.1 as nat)),
        ),
{
    push_decimal(out, p.0.0);
    out.push(':');
    push_decimal(out, p.0.1);
    out.push('-');
    push_decimal(out, p.1.0);
    out.push(':');
    push_decimal(out, p.1.1);
    assert(out@ =~= old(out)@ + label(
        ((p.0.0 as nat, p.0.1 as nat), (p.1.0 as nat, p.1.1 as nat)),
    ));
}

} // verus!
