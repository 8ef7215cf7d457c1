use vstd::prelude::*;

verus! {

/// The position of the first newline at or after `from`, or the length of
/// `buf` where none follows.
pub open spec fn line_end(buf: Seq<u8>, from: int) -> int
    decreases buf.len() - from,
{
    if from >= buf.len() {
        buf.len() as int
    } else if buf[from] == 0x0au8 {
        from
    } else {
        line_end(buf, from + 1)
    }
}

/// Whether a line carries attribute assignments: it is not empty and does not
/// open with `#`.
pub open spec fn carries_assignments(line: Seq<u8>) -> bool {
    line.len() > 0 && line[0] != 0x23u8
}

/// The lines of `buf` from offset `from` on, which is line `number`, that
/// carry attribute assignments, each with its one-based line number.
pub open spec fn entries_from(buf: Seq<u8>, from: int, number: int) -> Seq<(int, Seq<u8>)>
    decreases buf.len() - from,
{
    if from < 0 || from >= buf.len() {
        Seq::empty()
    } else {
        let end = line_end(buf, from);
        let line = buf.subrange(from, end);
        let rest = if from <= end < buf.len() {
            entries_from(buf, end + 1, number + 1)
        } else {
            Seq::empty()
        };
        if carries_assignments(line) {
            seq![(number, line)] + rest
        } else {
            rest
        }
    }
}

/// One line of an attributes file that carries assignments.
#[derive(Debug, Clone)]
pub struct Line {
    /// The one-based number of the line in its file.
    pub line_number: usize,
    /// The line's bytes, without its newline.
    pub text: Vec<u8>,
}

proof fn lemma_line_end_bounds(buf: Seq<u8>, from: int)
    requires
        0 <= from <= buf.len(),
    ensures
        from <= line_end(buf, from) <= buf.len(),
        line_end(buf, from) < buf.len() ==> buf[line_end(buf, from)] == 0x0au8,
        forall|k: int| from <= k < line_end(buf, from) ==> buf[k] != 0x0au8,
    decreases buf.len() - from,
{
    if from < buf.len() && buf[from] != 0x0au8 {
        lemma_line_end_bounds(buf, from + 1);
    }
}

proof fn lemma_line_end_skip(buf: Seq<u8>, from: int, k: int)
    requires
        0 <= from <= k <= buf.len(),
        forall|m: int| from <= m < k ==> buf[m] != 0x0au8,
    ensures
        line_end(buf, from) == line_end(buf, k),
    decreases k - from,
{
    if from < k {
        lemma_line_end_skip(buf, from + 1, k);
    }
}

/// Splits the content of an attributes file into the lines that carry
/// assignments: blank lines and comment lines (opening with `#`) are
/// skipped, and each kept line comes with its one-based number.
pub fn parse(buf: &[u8]) -> (r: Vec<Line>)
    requires
        buf@.len() < usize::MAX,
    ensures
        r@.len() == entries_from(buf@, 0, 1).len(),
        forall|i: int|
            0 <= i < r@.len() ==> (#[trigger] r@[i]).line_number == entries_from(buf@, 0, 1)[i].0
                && r@[i].text@ == entries_from(buf@, 0, 1)[i].1,
{
    let ghost whole = entries_from(buf@, 0, 1);
    let mut r: Vec<Line> = Vec::new();
    let ghost mut done: Seq<(int, Seq<u8>)> = Seq::empty();
    let mut start: usize = 0;
    let mut number: usize = 1;
    while start < buf.len()
        invariant
            start <= buf@.len() + 1,
            buf@.len() < usize::MAX,
            1 <= number <= start + 1,
            whole == done + entries_from(buf@, start as int, number as int),
            r@.len() == done.len(),
            forall|i: int|
                0 <= i < r@.len() ==> (#[trigger] r@[i]).line_number == done[i].0 && r@[i].text@
                    == done[i].1,
        decreases buf@.len() + 1 - start,
    {
        let mut end: usize = start;
        let mut text: Vec<u8> = Vec::new();
        while end < buf.len() && buf[end] != 0x0au8
            invariant
                start <= end <= buf@.len(),
                forall|m: int| start <= m < end ==> buf@[m] != 0x0au8,
                text@ == buf@.subrange(start as int, end as int),
            decreases buf@.len() - end,
        {
            text.push(buf[end]);
            end = end + 1;
            proof {
                assert(buf@.subrange(start as int, end as int) =~= buf@.subrange(
                    start as int,
                    end - 1,
                ).push(buf@[end - 1]));
            }
        }
        proof {
            lemma_line_end_skip(buf@, start as int, end as int);
            lemma_line_end_bounds(buf@, end as int);
            assert(line_end(buf@, start as int) == end);
        }
        let ghost rest = entries_from(buf@, end + 1, number + 1);
        let keep = text.len() > 0 && text[0] != 0x23u8;
        if keep {
            proof {
                done = done.push((number as int, text@));
                assert(whole =~= done + rest);
            }
            r.push(Line { line_number: number, text });
        } else {
            proof {
                assert(whole =~= done + rest);
            }
        }
        start = end + 1;
        number = number + 1;
    }
    assert(entries_from(buf@, start as int, number as int) == Seq::<(int, Seq<u8>)>::empty());
    assert(whole =~= done);
    r
}

} // verus!
