//! Splitting a byte stream into lines as `BufRead::read_until(b'\n', ..)`
//! yields them: each line ends at its newline, which it keeps, and the last
//! line may lack one.

use vstd::prelude::*;

verus! {

/// The position of the first newline at or after `from`, or the end of
/// `bytes` where there is none.
pub open spec fn newline_at_or_after(bytes: Seq<u8>, from: int) -> int
    decreases bytes.len() - from,
{
    if from < 0 || from >= bytes.len() {
        bytes.len() as int
    } else if bytes[from] == 10u8 {
        from
    } else {
        newline_at_or_after(bytes, from + 1)
    }
}

/// Where the line that starts at `from` ends: just after its newline, or at
/// the end of `bytes`.
pub open spec fn line_end(bytes: Seq<u8>, from: int) -> int {
    let e = newline_at_or_after(bytes, from);
    if e < bytes.len() {
        e + 1
    } else {
        bytes.len() as int
    }
}

/// The first newline at or after `from` lies between `from` and the end, and
/// none comes before it.
pub proof fn lemma_newline_at_or_after(bytes: Seq<u8>, from: int)
    requires
        0 <= from <= bytes.len(),
    ensures
        from <= newline_at_or_after(bytes, from) <= bytes.len(),
        newline_at_or_after(bytes, from) < bytes.len() ==> bytes[newline_at_or_after(bytes, from)]
            == 10u8,
        forall|k: int| from <= k < newline_at_or_after(bytes, from) ==> bytes[k] != 10u8,
    decreases bytes.len() - from,
{
    if from < bytes.len() && bytes[from] != 10u8 {
        lemma_newline_at_or_after(bytes, from + 1);
    }
}

/// The lines of `bytes` from position `from` on.
pub open spec fn lines_from(bytes: Seq<u8>, from: int) -> Seq<Seq<u8>>
    decreases bytes.len() - from,
{
    if from < 0 || from >= bytes.len() {
        Seq::empty()
    } else {
        let end = line_end(bytes, from);
        proof {
            lemma_newline_at_or_after(bytes, from);
        }
        seq![bytes.subrange(from, end)] + lines_from(bytes, end)
    }
}

/// The lines of `bytes`.
pub open spec fn lines_of(bytes: Seq<u8>) -> Seq<Seq<u8>> {
    lines_from(bytes, 0)
}

/// The pieces joined in order.
pub open spec fn joined(pieces: Seq<Seq<u8>>) -> Seq<u8>
    decreases pieces.len(),
{
    if pieces.len() == 0 {
        Seq::empty()
    } else {
        pieces[0] + joined(pieces.drop_first())
    }
}

/// Every piece is non-empty, holds a newline only as its last byte, and
/// ends with one unless it is the last piece.
pub open spec fn line_shaped(pieces: Seq<Seq<u8>>) -> bool {
    &&& forall|i: int| 0 <= i < pieces.len() ==> (#[trigger] pieces[i]).len() > 0
    &&& forall|i: int, k: int|
        0 <= i < pieces.len() && 0 <= k < pieces[i].len() - 1 ==> #[trigger] pieces[i][k] != 10u8
    &&& forall|i: int| 0 <= i < pieces.len() - 1 ==> (#[trigger] pieces[i]).last() == 10u8
}

proof fn lemma_lines_from(bytes: Seq<u8>, from: int)
    requires
        0 <= from <= bytes.len(),
    ensures
        joined(lines_from(bytes, from)) == bytes.subrange(from, bytes.len() as int),
        line_shaped(lines_from(bytes, from)),
        lines_from(bytes, from).len() == 0 <==> from == bytes.len(),
    decreases bytes.len() - from,
{
    if from < bytes.len() {
        let end = line_end(bytes, from);
        lemma_newline_at_or_after(bytes, from);
        lemma_lines_from(bytes, end);
        let head = bytes.subrange(from, end);
        let rest = lines_from(bytes, end);
        let all = lines_from(bytes, from);
        assert(all == seq![head] + rest);
        assert(all[0] == head);
        assert(all.drop_first() =~= rest);
        assert(head + bytes.subrange(end, bytes.len() as int) =~= bytes.subrange(from, bytes.len() as int));
        assert forall|i: int| 0 <= i < all.len() implies (#[trigger] all[i]).len() > 0 by {
            if i > 0 {
                assert(all[i] == rest[i - 1]);
            }
        }
        assert forall|i: int, k: int| 0 <= i < all.len() && 0 <= k < all[i].len() - 1 implies #[trigger] all[i][k]
            != 10u8 by {
            if i > 0 {
                assert(all[i] == rest[i - 1]);
            } else {
                assert(all[i][k] == bytes[from + k]);
            }
        }
        assert forall|i: int| 0 <= i < all.len() - 1 implies (#[trigger] all[i]).last() == 10u8 by {
            if i > 0 {
                assert(all[i] == rest[i - 1]);
            } else {
                assert(rest.len() > 0);
                assert(end < bytes.len());
                assert(all[0].last() == bytes[end - 1]);
            }
        }
    } else {
        assert(bytes.subrange(from, bytes.len() as int) =~= Seq::<u8>::empty());
    }
}

/// The lines of a byte stream, joined again, give the stream back; each is
/// non-empty, holds a newline only as its last byte, and all but the last
/// end with one; there are none exactly when the stream is empty.
pub proof fn law_lines_rejoin(bytes: Seq<u8>)
    ensures
        joined(lines_of(bytes)) == bytes,
        line_shaped(lines_of(bytes)),
        lines_of(bytes).len() == 0 <==> bytes.len() == 0,
{
    lemma_lines_from(bytes, 0);
    assert(bytes.subrange(0, bytes.len() as int) =~= bytes);
}

/// The bytes `bytes[from..to]` as a vector.
fn copy_range(bytes: &[u8], from: usize, to: usize) -> (r: Vec<u8>)
    requires
        from <= to <= bytes.len(),
    ensures
        r@ == bytes@.subrange(from as int, to as int),
{
    let mut out: Vec<u8> = Vec::new();
    let mut i = from;
    while i < to
        invariant
            from <= i <= to <= bytes.len(),
            out@ == bytes@.subrange(from as int, i as int),
        decreases to - i,
    {
        out.push(bytes[i]);
        i = i + 1;
        assert(out@ =~= bytes@.subrange(from as int, i as int));
    }
    out
}

/// Splits `bytes` into its lines (see [`lines_of`]).
pub fn split_lines(bytes: &[u8]) -> (r: Vec<Vec<u8>>)
    ensures
        r@.map_values(|l: Vec<u8>| l@) == lines_of(bytes@),
{
    let n = bytes.len();
    let mut out: Vec<Vec<u8>> = Vec::new();
    let mut start: usize = 0;
    while start < n
        invariant
            start <= n,
            n == bytes@.len(),
            out@.map_values(|l: Vec<u8>| l@) + lines_from(bytes@, start as int) == lines_of(bytes@),
        decreases n - start,
    {
        let mut j = start;
        while j < n && bytes[j] != 10u8
            invariant
                start <= j <= n,
                n == bytes@.len(),
                newline_at_or_after(bytes@, start as int) == newline_at_or_after(bytes@, j as int),
            decreases n - j,
        {
            j = j + 1;
        }
        let end = if j < n { j + 1 } else { n };
        assert(end == line_end(bytes@, start as int));
        let piece = copy_range(bytes, start, end);
        let ghost before = out@.map_values(|l: Vec<u8>| l@);
        out.push(piece);
        proof {
            let rest = lines_from(bytes@, end as int);
            assert(lines_from(bytes@, start as int) == seq![bytes@.subrange(start as int, end as int)]
                + rest);
            assert(out@.map_values(|l: Vec<u8>| l@) =~= before.push(piece@));
            assert(before.push(piece@) + rest =~= before + (seq![piece@] + rest));
        }
        start = end;
    }
    proof {
        assert(lines_from(bytes@, start as int) =~= Seq::<Seq<u8>>::empty());
        assert(out@.map_values(|l: Vec<u8>| l@) + Seq::<Seq<u8>>::empty() =~= out@.map_values(
            |l: Vec<u8>| l@,
        ));
    }
    out
}

} // verus!
