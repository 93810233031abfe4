use vstd::prelude::*;

verus! {

/// The byte that ends a line.
pub const NEWLINE: u8 = 0x0A;

/// Where a line lies in a file: the offset of its first byte, and its length
/// without the newline.
#[derive(Clone, Copy, Debug, PartialEq, Eq, Structural)]
pub struct LineSpan {
    pub offset: usize,
    pub length: usize,
}

/// The number of bytes of `b` from `from` on that come before a newline or
/// the end of `b`.
pub open spec fn line_len(b: Seq<u8>, from: int) -> nat
    decreases b.len() - from,
{
    if from < 0 || from >= b.len() || b[from] == NEWLINE {
        0
    } else {
        1 + line_len(b, from + 1)
    }
}

/// The position of the first newline of `b` at or behind `from`, or the length
/// of `b` where there is none.
pub open spec fn line_end(b: Seq<u8>, from: int) -> int {
    from + line_len(b, from)
}

/// The lines of `b` that begin at or behind `from`, where a line begins at
/// `from`: each as offset and length.
pub open spec fn spans_from(b: Seq<u8>, from: int) -> Seq<(int, int)>
    decreases
            (if from < b.len() {
                b.len() - from
            } else {
                0
            }),
{
    if from < 0 || from >= b.len() {
        Seq::empty()
    } else {
        seq![(from, line_len(b, from) as int)] + spans_from(b, from + line_len(b, from) + 1)
    }
}

/// The lines of a file, each as offset and length. A newline ends a line;
/// what follows the last newline is a line too, unless it is empty.
pub open spec fn line_spans(b: Seq<u8>) -> Seq<(int, int)> {
    spans_from(b, 0)
}

/// The bytes of `b` that a span covers.
pub open spec fn span_bytes(b: Seq<u8>, span: (int, int)) -> Seq<u8> {
    b.subrange(span.0, span.0 + span.1)
}

/// The lines of a file, without their newlines.
pub open spec fn lines_of(b: Seq<u8>) -> Seq<Seq<u8>> {
    Seq::new(line_spans(b).len(), |i: int| span_bytes(b, line_spans(b)[i]))
}

/// The span at `offset` with `length` is one whole line of `b`: it lies within
/// `b`, holds no newline, begins where the file or a line begins, and ends
/// where a newline or the file ends.
pub open spec fn is_line(b: Seq<u8>, offset: int, length: int) -> bool {
    &&& 0 <= offset < b.len()
    &&& 0 <= length
    &&& offset + length <= b.len()
    &&& forall|k: int| offset <= k < offset + length ==> #[trigger] b[k] != NEWLINE
    &&& (offset == 0 || b[offset - 1] == NEWLINE)
    &&& (offset + length == b.len() || b[offset + length] == NEWLINE)
}

/// A file is closed where it is empty or ends in a newline.
pub open spec fn is_closed(b: Seq<u8>) -> bool {
    b.len() == 0 || b.last() == NEWLINE
}

/// What a list of spans holds.
pub open spec fn spans_of(v: Seq<LineSpan>) -> Seq<(int, int)> {
    Seq::new(v.len(), |i: int| (v[i].offset as int, v[i].length as int))
}

/// `line_end` stays within the file, passes no newline and stops at one.
pub proof fn lemma_line_end(b: Seq<u8>, from: int)
    requires
        0 <= from <= b.len(),
    ensures
        from <= line_end(b, from) <= b.len(),
        forall|k: int| from <= k < line_end(b, from) ==> #[trigger] b[k] != NEWLINE,
        line_end(b, from) < b.len() ==> b[line_end(b, from)] == NEWLINE,
    decreases b.len() - from,
{
    if from < b.len() && b[from] != NEWLINE {
        lemma_line_end(b, from + 1);
    }
}

/// Every span among the lines that begin at or behind a line start is one
/// whole line of the file.
pub proof fn lemma_spans_are_lines(b: Seq<u8>, from: int, i: int)
    requires
        0 <= from <= b.len(),
        from == 0 || b[from - 1] == NEWLINE,
        0 <= i < spans_from(b, from).len(),
    ensures
        is_line(b, spans_from(b, from)[i].0, spans_from(b, from)[i].1),
        spans_from(b, from)[i].0 >= from,
    decreases b.len() - from,
{
    lemma_line_end(b, from);
    let e = line_end(b, from);
    if i > 0 {
        assert(spans_from(b, from)[i] == spans_from(b, e + 1)[i - 1]);
        lemma_spans_are_lines(b, e + 1, i - 1);
    }
}

/// The lines of a file begin at offsets that grow strictly.
pub proof fn lemma_spans_increase(b: Seq<u8>, from: int, i: int, j: int)
    requires
        0 <= from <= b.len(),
        0 <= i < j < spans_from(b, from).len(),
    ensures
        spans_from(b, from)[i].0 + spans_from(b, from)[i].1 < spans_from(b, from)[j].0,
    decreases b.len() - from,
{
    lemma_line_end(b, from);
    let e = line_end(b, from);
    assert(spans_from(b, from)[j] == spans_from(b, e + 1)[j - 1]);
    if i > 0 {
        assert(spans_from(b, from)[i] == spans_from(b, e + 1)[i - 1]);
        lemma_spans_increase(b, e + 1, i - 1, j - 1);
    } else {
        lemma_spans_lower_bound(b, e + 1, j - 1);
    }
}

/// A line that begins at or behind `from` has its offset there too.
pub proof fn lemma_spans_lower_bound(b: Seq<u8>, from: int, i: int)
    requires
        0 <= from,
        0 <= i < spans_from(b, from).len(),
    ensures
        spans_from(b, from)[i].0 >= from,
    decreases b.len() - from,
{
    if from < b.len() {
        lemma_line_end(b, from);
        let e = line_end(b, from);
        if i > 0 {
            assert(spans_from(b, from)[i] == spans_from(b, e + 1)[i - 1]);
            lemma_spans_lower_bound(b, e + 1, i - 1);
        }
    }
}

/// A line ends at or before any newline behind its start.
pub proof fn lemma_line_ends_by(b: Seq<u8>, from: int, k: int)
    requires
        0 <= from <= k < b.len(),
        b[k] == NEWLINE,
    ensures
        from + line_len(b, from) <= k,
    decreases k - from,
{
    if b[from] != NEWLINE {
        lemma_line_ends_by(b, from + 1, k);
    }
}

/// A line that a newline ends is the same line when more bytes follow the
/// file.
pub proof fn lemma_line_len_longer(b: Seq<u8>, tail: Seq<u8>, from: int)
    requires
        0 <= from <= b.len(),
        from + line_len(b, from) < b.len(),
    ensures
        line_len(b + tail, from) == line_len(b, from),
    decreases b.len() - from,
{
    assert((b + tail)[from] == b[from]);
    if b[from] != NEWLINE {
        lemma_line_len_longer(b, tail, from + 1);
    }
}

/// Bytes without a newline, with a newline behind them, are one line.
pub proof fn lemma_line_len_last(b: Seq<u8>, line: Seq<u8>, from: int)
    requires
        b.len() <= from <= b.len() + line.len(),
        !line.contains(NEWLINE),
    ensures
        line_len(b + line.push(NEWLINE), from) == b.len() + line.len() - from,
    decreases b.len() + line.len() - from,
{
    let all = b + line.push(NEWLINE);
    if from < b.len() + line.len() {
        assert(all[from] == line[from - b.len()]);
        assert(line.contains(line[from - b.len()]));
        lemma_line_len_last(b, line, from + 1);
    } else {
        assert(all[from] == NEWLINE);
    }
}

/// Appending a line to a closed file adds that line behind the lines of the
/// file and leaves those where they are.
pub proof fn lemma_spans_append(b: Seq<u8>, line: Seq<u8>, from: int)
    requires
        is_closed(b),
        !line.contains(NEWLINE),
        0 <= from <= b.len(),
    ensures
        spans_from(b + line.push(NEWLINE), from) == spans_from(b, from).push((b.len() as int, line.len() as int)),
        is_closed(b + line.push(NEWLINE)),
    decreases b.len() - from,
{
    let all = b + line.push(NEWLINE);
    assert(all.last() == NEWLINE);
    if from == b.len() {
        lemma_line_len_last(b, line, from);
        assert(spans_from(all, all.len() as int) =~= Seq::empty());
        assert(spans_from(b, from) =~= Seq::empty());
        assert(spans_from(all, from) =~= Seq::<(int, int)>::empty().push((b.len() as int, line.len() as int)));
    } else {
        lemma_line_ends_by(b, from, b.len() - 1);
        lemma_line_len_longer(b, line.push(NEWLINE), from);
        let next = from + line_len(b, from) + 1;
        lemma_spans_append(b, line, next);
        assert(spans_from(all, from) =~= spans_from(b, from).push((b.len() as int, line.len() as int)));
    }
}

/// Finds the lines of a file.
pub fn find_lines(bytes: &[u8]) -> (r: Vec<LineSpan>)
    ensures
        spans_of(r@) == line_spans(bytes@),
{
    let n: usize = bytes.len();
    let mut out: Vec<LineSpan> = Vec::new();
    let mut pos: usize = 0;
    assert(spans_of(out@) + spans_from(bytes@, 0) =~= line_spans(bytes@));
    while pos < n
        invariant
            pos <= n,
            n == bytes@.len(),
            spans_of(out@) + spans_from(bytes@, pos as int) == line_spans(bytes@),
        decreases n - pos,
    {
        let mut end: usize = pos;
        while end < n && bytes[end] != NEWLINE
            invariant
                pos <= end <= n,
                n == bytes@.len(),
                line_end(bytes@, pos as int) == line_end(bytes@, end as int),
                pos < n,
            decreases n - end,
        {
            end += 1;
        }
        let ghost before = spans_of(out@);
        out.push(LineSpan { offset: pos, length: end - pos });
        assert(spans_of(out@) =~= before + seq![(pos as int, end - pos)]);
        let next: usize = if end < n {
            end + 1
        } else {
            n
        };
        assert(spans_from(bytes@, end + 1) == spans_from(bytes@, next as int));
        assert(spans_of(out@) + spans_from(bytes@, next as int) =~= before + spans_from(
            bytes@,
            pos as int,
        ));
        pos = next;
    }
    assert(spans_of(out@) + spans_from(bytes@, pos as int) =~= spans_of(out@));
    out
}

} // verus!
