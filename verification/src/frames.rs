//! Reassembly of a raw output byte stream into logical line units.
//!
//! The worker writes one JSON object per line, but its stdout arrives in
//! arbitrary chunks: a chunk may end mid-line, mid-escape or mid-codepoint,
//! or carry several lines at once. A growable buffer holds the bytes of the
//! unfinished last line between chunks. Because the split into lines happens
//! on bytes, before any text decoding, the units produced are independent of
//! how the stream was chunked; that invariance is proved below.

use vstd::prelude::*;

use crate::json::rem;

verus! {

broadcast use vstd::seq::group_seq_axioms;

/// Offset from `i` to the first newline byte at or after `i`.
pub open spec fn sp_nl(s: Seq<u8>, i: nat) -> Option<nat>
    decreases rem(s, i),
{
    if i >= s.len() {
        None
    } else if s[i as int] == 0x0a {
        Some(0)
    } else {
        match sp_nl(s, i + 1) {
            Some(d) => Some((d + 1) as nat),
            None => None,
        }
    }
}

/// A line with a trailing carriage return loses it.
pub open spec fn strip_cr(l: Seq<u8>) -> Seq<u8> {
    if l.len() > 0 && l.last() == 0x0d {
        l.drop_last()
    } else {
        l
    }
}

/// The complete lines of `s` from `i` on: each run of bytes up to a newline,
/// with the newline and a trailing carriage return removed.
pub open spec fn sp_lines_at(s: Seq<u8>, i: nat) -> Seq<Seq<u8>>
    decreases rem(s, i),
{
    match sp_nl(s, i) {
        None => Seq::empty(),
        Some(d) => seq![strip_cr(s.subrange(i as int, (i + d) as int))] + sp_lines_at(
            s,
            i + d + 1,
        ),
    }
}

/// What remains of `s` after its last complete line.
pub open spec fn sp_tail_at(s: Seq<u8>, i: nat) -> Seq<u8>
    decreases rem(s, i),
{
    match sp_nl(s, i) {
        None => if i <= s.len() {
            s.subrange(i as int, s.len() as int)
        } else {
            Seq::empty()
        },
        Some(d) => sp_tail_at(s, i + d + 1),
    }
}

pub open spec fn sp_lines(s: Seq<u8>) -> Seq<Seq<u8>> {
    sp_lines_at(s, 0)
}

pub open spec fn sp_tail(s: Seq<u8>) -> Seq<u8> {
    sp_tail_at(s, 0)
}

/// Every unit of a whole stream, the final best-effort flush of an
/// unterminated last line included.
pub open spec fn sp_units(s: Seq<u8>) -> Seq<Seq<u8>> {
    if sp_tail(s).len() == 0 {
        sp_lines(s)
    } else {
        sp_lines(s).push(strip_cr(sp_tail(s)))
    }
}

/// What `sp_nl` finding a newline at offset `d` says about the bytes.
pub proof fn lemma_nl_props(s: Seq<u8>, i: nat)
    ensures
        match sp_nl(s, i) {
            Some(d) => i + d < s.len() && s[(i + d) as int] == 0x0a && forall|k: int|
                i <= k < i + d ==> s[k] != 0x0a,
            None => forall|k: int| i <= k < s.len() ==> s[k] != 0x0a,
        },
    decreases rem(s, i),
{
    if i < s.len() && s[i as int] != 0x0a {
        lemma_nl_props(s, i + 1);
    }
}

/// The bytes determine where `sp_nl` finds the newline.
pub proof fn lemma_nl_of_bytes(s: Seq<u8>, i: nat, d: nat)
    requires
        i + d < s.len(),
        s[(i + d) as int] == 0x0a,
        forall|k: int| i <= k < i + d ==> s[k] != 0x0a,
    ensures
        sp_nl(s, i) == Some(d),
    decreases d,
{
    if d > 0 {
        lemma_nl_of_bytes(s, i + 1, (d - 1) as nat);
    }
}

/// Line splitting depends only on the bytes from the cursor on.
pub proof fn lemma_split_suffix(s: Seq<u8>, t: Seq<u8>, i: nat, j: nat)
    requires
        i <= s.len(),
        j <= t.len(),
        s.skip(i as int) == t.skip(j as int),
    ensures
        sp_nl(s, i) == sp_nl(t, j),
        sp_lines_at(s, i) == sp_lines_at(t, j),
        sp_tail_at(s, i) == sp_tail_at(t, j),
    decreases rem(s, i),
{
    lemma_nl_props(s, i);
    lemma_nl_props(t, j);
    assert(s.len() - i == t.len() - j) by {
        vstd::seq::axiom_seq_subrange_len::<u8>(s, i as int, s.len() as int);
        vstd::seq::axiom_seq_subrange_len::<u8>(t, j as int, t.len() as int);
        assert(s.skip(i as int).len() == t.skip(j as int).len());
    }
    assert forall|k: int| 0 <= k < s.len() - i implies s[i + k] == #[trigger] t[j + k] by {
        vstd::seq::axiom_seq_subrange_index::<u8>(s, i as int, s.len() as int, k);
        vstd::seq::axiom_seq_subrange_index::<u8>(t, j as int, t.len() as int, k);
        assert(s.skip(i as int)[k] == t.skip(j as int)[k]);
    }
    match sp_nl(s, i) {
        None => {
            if sp_nl(t, j) is Some {
                let d = sp_nl(t, j)->0;
                assert(t[(j + d) as int] == 0x0a);
                assert(s[(i + d) as int] == t[(j + d) as int]);
            }
            assert(sp_tail_at(s, i) =~= sp_tail_at(t, j));
        },
        Some(d) => {
            lemma_nl_of_bytes(t, j, d);
            assert(s.subrange(i as int, (i + d) as int) =~= t.subrange(
                j as int,
                (j + d) as int,
            )) by {
                vstd::seq::axiom_seq_subrange_len::<u8>(s, i as int, (i + d) as int);
                vstd::seq::axiom_seq_subrange_len::<u8>(t, j as int, (j + d) as int);
                assert forall|k: int| 0 <= k < d implies #[trigger] s.subrange(
                    i as int,
                    (i + d) as int,
                )[k] == t.subrange(j as int, (j + d) as int)[k] by {
                    vstd::seq::axiom_seq_subrange_index::<u8>(s, i as int, (i + d) as int, k);
                    vstd::seq::axiom_seq_subrange_index::<u8>(t, j as int, (j + d) as int, k);
                    assert(s[i + k] == t[j + k]);
                }
            }
            assert(s.skip((i + d + 1) as int) =~= t.skip((j + d + 1) as int)) by {
                vstd::seq::axiom_seq_subrange_len::<u8>(s, (i + d + 1) as int, s.len() as int);
                vstd::seq::axiom_seq_subrange_len::<u8>(t, (j + d + 1) as int, t.len() as int);
                assert forall|k: int| 0 <= k < s.len() - (i + d + 1) implies #[trigger] s.skip(
                    (i + d + 1) as int,
                )[k] == t.skip((j + d + 1) as int)[k] by {
                    vstd::seq::axiom_seq_subrange_index::<u8>(
                        s,
                        (i + d + 1) as int,
                        s.len() as int,
                        k,
                    );
                    vstd::seq::axiom_seq_subrange_index::<u8>(
                        t,
                        (j + d + 1) as int,
                        t.len() as int,
                        k,
                    );
                    assert(s[i + (d + 1 + k)] == t[j + (d + 1 + k)]);
                }
            }
            lemma_split_suffix(s, t, i + d + 1, j + d + 1);
        },
    }
}

/// Feeding a stream in two pieces gives the same lines and the same residue
/// as feeding it whole: the residue of the first piece is simply prepended
/// to the second.
pub proof fn lemma_split_concat(a: Seq<u8>, b: Seq<u8>, i: nat)
    requires
        i <= a.len(),
    ensures
        sp_lines_at(a + b, i) == sp_lines_at(a, i) + sp_lines(sp_tail_at(a, i) + b),
        sp_tail_at(a + b, i) == sp_tail(sp_tail_at(a, i) + b),
    decreases rem(a, i),
{
    lemma_nl_props(a, i);
    match sp_nl(a, i) {
        None => {
            assert(sp_tail_at(a, i) == a.subrange(i as int, a.len() as int));
            assert((a + b).skip(i as int) =~= sp_tail_at(a, i) + b);
            assert((sp_tail_at(a, i) + b).skip(0) =~= sp_tail_at(a, i) + b);
            lemma_split_suffix(a + b, sp_tail_at(a, i) + b, i, 0);
            assert(sp_lines_at(a, i) + sp_lines(sp_tail_at(a, i) + b) =~= sp_lines(sp_tail_at(
                a,
                i,
            ) + b));
        },
        Some(d) => {
            assert((a + b)[(i + d) as int] == a[(i + d) as int]);
            assert(forall|k: int| i <= k < i + d ==> (a + b)[k] == a[k]);
            lemma_nl_of_bytes(a + b, i, d);
            assert((a + b).subrange(i as int, (i + d) as int) =~= a.subrange(
                i as int,
                (i + d) as int,
            ));
            lemma_split_concat(a, b, i + d + 1);
            assert(sp_lines_at(a + b, i) =~= sp_lines_at(a, i) + sp_lines(sp_tail_at(a, i)
                + b));
        },
    }
}

/// All the ways a byte stream can arrive: a list of chunks. Feeding them one
/// by one through a line buffer, starting empty, yields exactly the lines of
/// the concatenated stream, and leaves exactly its residue in the buffer.
pub open spec fn feed_lines(chunks: Seq<Seq<u8>>, buf: Seq<u8>) -> Seq<Seq<u8>>
    decreases chunks.len(),
{
    if chunks.len() == 0 {
        Seq::empty()
    } else {
        sp_lines(buf + chunks[0]) + feed_lines(chunks.drop_first(), sp_tail(buf + chunks[0]))
    }
}

pub open spec fn feed_tail(chunks: Seq<Seq<u8>>, buf: Seq<u8>) -> Seq<u8>
    decreases chunks.len(),
{
    if chunks.len() == 0 {
        buf
    } else {
        feed_tail(chunks.drop_first(), sp_tail(buf + chunks[0]))
    }
}

/// Chunk-boundary invariance: however a stream is split into chunks, the
/// line units that come out, and the residue left for the final flush, are
/// those of the unsplit stream.
pub proof fn lemma_chunking_invariance(chunks: Seq<Seq<u8>>, buf: Seq<u8>)
    requires
        forall|k: int| 0 <= k < buf.len() ==> buf[k] != 0x0a,
    ensures
        feed_lines(chunks, buf) == sp_lines(buf + chunks.flatten()),
        feed_tail(chunks, buf) == sp_tail(buf + chunks.flatten()),
    decreases chunks.len(),
{
    if chunks.len() == 0 {
        assert(chunks.flatten() =~= Seq::<u8>::empty());
        assert(buf + chunks.flatten() =~= buf);
        lemma_nl_props(buf, 0);
        assert(sp_nl(buf, 0) is None);
        assert(sp_tail(buf) =~= buf);
    } else {
        let head = buf + chunks[0];
        lemma_tail_no_nl(head, 0);
        lemma_chunking_invariance(chunks.drop_first(), sp_tail(head));
        lemma_split_concat(head, chunks.drop_first().flatten(), 0);
        assert(head + chunks.drop_first().flatten() =~= buf + chunks.flatten()) by {
            lemma_flatten_first(chunks);
        }
    }
}

/// Flattening starts with the first chunk.
proof fn lemma_flatten_first(chunks: Seq<Seq<u8>>)
    requires
        chunks.len() > 0,
    ensures
        chunks.flatten() == chunks[0] + chunks.drop_first().flatten(),
{
    assert(chunks.flatten() == chunks.first() + chunks.drop_first().flatten());
}

/// A residue holds no newline, so it splits into no lines at all.
pub proof fn lemma_tail_of_residue(s: Seq<u8>)
    ensures
        sp_lines(sp_tail(s)) == Seq::<Seq<u8>>::empty(),
        sp_tail(sp_tail(s)) == sp_tail(s),
    decreases rem(s, 0nat),
{
    lemma_tail_no_nl(s, 0);
    let t = sp_tail(s);
    lemma_nl_props(t, 0);
    assert(sp_nl(t, 0) is None);
    assert(sp_tail(t) =~= t);
}

/// The residue contains no newline byte.
pub proof fn lemma_tail_no_nl(s: Seq<u8>, i: nat)
    requires
        i <= s.len(),
    ensures
        forall|k: int| 0 <= k < sp_tail_at(s, i).len() ==> sp_tail_at(s, i)[k] != 0x0a,
    decreases rem(s, i),
{
    lemma_nl_props(s, i);
    match sp_nl(s, i) {
        None => {
            vstd::seq::axiom_seq_subrange_len::<u8>(s, i as int, s.len() as int);
            assert forall|k: int| 0 <= k < sp_tail_at(s, i).len() implies sp_tail_at(s, i)[k]
                != 0x0a by {
                vstd::seq::axiom_seq_subrange_index::<u8>(s, i as int, s.len() as int, k);
            }
        },
        Some(d) => {
            lemma_tail_no_nl(s, i + d + 1);
            assert(sp_tail_at(s, i) == sp_tail_at(s, i + d + 1));
        },
    }
}

} // verus!
