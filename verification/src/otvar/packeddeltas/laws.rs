//! What holds of packed deltas: above all, that decoding gives back what
//! was encoded.

use super::{
    control_byte, decoded, decoded_from, encoded, encoded_from, fits_byte, kind_of, payload_len,
    prepend, run_count, run_deltas, run_kind, stored_run, stored_stretch, stretch_end,
    stretch_takes, RunKind,
};
use crate::cursor::{holds_at, lemma_holds_at_index, lemma_holds_at_split};
use vstd::prelude::*;

verus! {

/// Whether the deltas `vals` can make up a run of the given kind: zeros for
/// a zero run, deltas that fit a byte for a byte run, any for a word run.
pub open spec fn suits(kind: RunKind, vals: Seq<i16>) -> bool {
    match kind {
        RunKind::Zeros => forall|i: int| 0 <= i < vals.len() ==> vals[i] == 0,
        RunKind::Bytes => forall|i: int| 0 <= i < vals.len() ==> fits_byte(#[trigger] vals[i]),
        RunKind::Words => true,
    }
}

/// A stretch ends at or after the position it has come to, within the
/// array, and after the first delta where that delta is of its kind.
pub proof fn lemma_stretch_end_bounds(v: Seq<i16>, kind: RunKind, pos: int)
    requires
        0 <= pos <= v.len(),
    ensures
        pos <= stretch_end(v, kind, pos) <= v.len(),
        pos < v.len() && kind == kind_of(v[pos]) ==> pos < stretch_end(v, kind, pos),
    decreases v.len() - pos,
{
    if pos < v.len() && stretch_takes(v, kind, pos) {
        lemma_stretch_end_bounds(v, kind, pos + 1);
    }
}

/// Every delta of a stretch is one that the stretch takes.
pub proof fn lemma_stretch_takes_all(v: Seq<i16>, kind: RunKind, pos: int, i: int)
    requires
        0 <= pos <= i < stretch_end(v, kind, pos),
    ensures
        i < v.len(),
        stretch_takes(v, kind, i),
    decreases i - pos,
{
    if pos < v.len() && stretch_takes(v, kind, pos) {
        if pos < i {
            lemma_stretch_takes_all(v, kind, pos + 1, i);
        }
    }
}

/// The deltas of a stretch suit its kind.
pub proof fn lemma_stretch_suits(v: Seq<i16>, pos: int)
    requires
        0 <= pos < v.len(),
    ensures
        suits(kind_of(v[pos]), v.subrange(pos, stretch_end(v, kind_of(v[pos]), pos))),
{
    let kind = kind_of(v[pos]);
    let end = stretch_end(v, kind, pos);
    lemma_stretch_end_bounds(v, kind, pos);
    let vals = v.subrange(pos, end);
    match kind {
        RunKind::Zeros => {
            assert forall|i: int| 0 <= i < vals.len() implies vals[i] == 0 by {
                lemma_stretch_takes_all(v, kind, pos, pos + i);
            }
        },
        RunKind::Bytes => {
            assert forall|i: int| 0 <= i < vals.len() implies fits_byte(#[trigger] vals[i]) by {
                lemma_stretch_takes_all(v, kind, pos, pos + i);
            }
        },
        RunKind::Words => {},
    }
}

/// A control byte announces the kind and the count it was made for.
pub proof fn lemma_control_byte(kind: RunKind, count: int)
    requires
        1 <= count <= 64,
    ensures
        run_kind(control_byte(kind, count)) == kind,
        run_count(control_byte(kind, count)) == count,
{
    let low = (count - 1) as u8;
    assert(low < 64 ==> (0x80u8 | low) & 0x80 != 0 && (0x80u8 | low) & 0x3f == low)
        by (bit_vector);
    assert(low < 64 ==> (0x40u8 | low) & 0x80 == 0 && (0x40u8 | low) & 0x40 != 0 && (0x40u8 | low)
        & 0x3f == low) by (bit_vector);
    assert(low < 64 ==> low & 0x80 == 0 && low & 0x40 == 0 && low & 0x3f == low) by (bit_vector);
}

/// A control byte announces from 1 to 64 deltas.
pub proof fn lemma_run_count(control: u8)
    ensures
        1 <= run_count(control) <= 64,
{
    assert(control & 0x3f <= 63) by (bit_vector);
}

/// A stored run is read back as the deltas it was made of.
pub proof fn lemma_stored_run_decodes(bytes: Seq<u8>, at: int, kind: RunKind, vals: Seq<i16>)
    requires
        1 <= vals.len() <= 64,
        suits(kind, vals),
        holds_at(bytes, at, stored_run(kind, vals)),
    ensures
        0 <= at < bytes.len(),
        run_kind(bytes[at]) == kind,
        run_count(bytes[at]) == vals.len(),
        stored_run(kind, vals).len() == 1 + payload_len(kind, vals.len() as int),
        run_deltas(bytes, at + 1, kind, vals.len() as int) == vals,
{
    let count = vals.len() as int;
    let stored = stored_run(kind, vals);
    lemma_control_byte(kind, count);
    lemma_holds_at_index(bytes, at, stored, 0);
    let run = run_deltas(bytes, at + 1, kind, count);
    assert forall|i: int| 0 <= i < count implies run[i] == vals[i] by {
        match kind {
            RunKind::Zeros => {},
            RunKind::Bytes => {
                lemma_holds_at_index(bytes, at, stored, 1 + i);
            },
            RunKind::Words => {
                lemma_holds_at_index(bytes, at, stored, 1 + 2 * i);
                lemma_holds_at_index(bytes, at, stored, 2 + 2 * i);
            },
        }
    }
}

/// A stored stretch is read back as the deltas it was made of, and
/// decoding goes on behind it where more deltas are asked for.
pub proof fn lemma_stored_stretch_decodes(
    bytes: Seq<u8>,
    at: int,
    kind: RunKind,
    vals: Seq<i16>,
    need: int,
)
    requires
        suits(kind, vals),
        holds_at(bytes, at, stored_stretch(kind, vals)),
        need >= vals.len(),
    ensures
        decoded_from(bytes, at, need) == if need == vals.len() {
            Some((vals, at + stored_stretch(kind, vals).len()))
        } else {
            prepend(
                vals,
                decoded_from(bytes, at + stored_stretch(kind, vals).len(), need - vals.len()),
            )
        },
    decreases vals.len(),
{
    if vals.len() >= 64 {
        let head = vals.take(64);
        let tail = vals.skip(64);
        let run = stored_run(kind, head);
        lemma_holds_at_split(bytes, at, run, stored_stretch(kind, tail));
        lemma_stored_run_decodes(bytes, at, kind, head);
        lemma_stored_stretch_decodes(bytes, at + run.len(), kind, tail, need - 64);
    } else if vals.len() > 0 {
        lemma_stored_run_decodes(bytes, at, kind, vals);
    }
}

/// The stored form of the deltas from `pos` on, wherever a buffer holds it,
/// is decoded as those deltas, and decoding ends right behind it.
pub proof fn lemma_encoded_from_decodes(v: Seq<i16>, pos: int, bytes: Seq<u8>, at: int)
    requires
        0 <= pos <= v.len(),
        holds_at(bytes, at, encoded_from(v, pos)),
    ensures
        decoded_from(bytes, at, v.len() - pos) == Some(
            (v.skip(pos), at + encoded_from(v, pos).len()),
        ),
    decreases v.len() - pos,
{
    if pos < v.len() {
        let kind = kind_of(v[pos]);
        let end = stretch_end(v, kind, pos);
        let vals = v.subrange(pos, end);
        let stretch = stored_stretch(kind, vals);
        lemma_stretch_end_bounds(v, kind, pos);
        lemma_stretch_suits(v, pos);
        lemma_holds_at_split(bytes, at, stretch, encoded_from(v, end));
        lemma_stored_stretch_decodes(bytes, at, kind, vals, v.len() - pos);
        lemma_encoded_from_decodes(v, end, bytes, at + stretch.len());
    }
}

/// Round trip: the stored form of a delta array, decoded with the array's
/// length as the number of points, gives the array back.
pub proof fn lemma_round_trip(v: Seq<i16>)
    ensures
        decoded(encoded(v), v.len()) == Some(v),
{
    lemma_round_trip_within(v, Seq::empty(), Seq::empty());
}

/// The round trip holds wherever the stored form stands in a buffer,
/// whatever comes before and after it, and decoding then ends right behind
/// the stored form.
pub proof fn lemma_round_trip_within(v: Seq<i16>, before: Seq<u8>, after: Seq<u8>)
    ensures
        decoded_from(before + encoded(v) + after, before.len() as int, v.len() as int) == Some(
            (v, (before.len() + encoded(v).len()) as int),
        ),
{
    let stored = encoded(v);
    let bytes = before + stored + after;
    assert(holds_at(bytes, before.len() as int, stored)) by {
        assert(bytes.subrange(before.len() as int, (before.len() + stored.len()) as int)
            =~= stored);
    }
    lemma_encoded_from_decodes(v, 0, bytes, before.len() as int);
}

/// The stored form is canonical: storing what was decoded from a stored
/// form gives that stored form again.
pub proof fn lemma_reencode(v: Seq<i16>)
    ensures
        decoded(encoded(v), v.len()) matches Some(again) && encoded(again) == encoded(v),
{
    lemma_round_trip(v);
}

/// No deltas are stored as no bytes.
pub proof fn lemma_encoded_empty()
    ensures
        encoded(Seq::empty()) == Seq::<u8>::empty(),
{
}

/// How long a stored stretch is: one control byte for every 64 deltas or
/// part of 64, and the payload of all its deltas.
pub proof fn lemma_stored_stretch_len(kind: RunKind, vals: Seq<i16>)
    ensures
        stored_stretch(kind, vals).len() == (vals.len() + 63) / 64 + payload_len(
            kind,
            vals.len() as int,
        ),
    decreases vals.len(),
{
    if vals.len() >= 64 {
        lemma_stored_stretch_len(kind, vals.skip(64));
    }
}

/// What was decoded holds at least the deltas that were asked for, and
/// fewer than 64 more: the rest of the last run. Decoding ends within the
/// buffer, and no earlier than it began.
pub proof fn lemma_decoded_bounds(bytes: Seq<u8>, pos: int, need: int)
    requires
        0 <= pos <= bytes.len(),
        decoded_from(bytes, pos, need) is Some,
    ensures
        ({
            let (deltas, end) = decoded_from(bytes, pos, need)->0;
            &&& pos <= end <= bytes.len()
            &&& need <= deltas.len()
            &&& need > 0 ==> deltas.len() < need + 64
            &&& need <= 0 ==> deltas.len() == 0 && end == pos
        }),
    decreases need,
{
    if need > 0 {
        let kind = run_kind(bytes[pos]);
        let count = run_count(bytes[pos]);
        let next = pos + 1 + payload_len(kind, count);
        lemma_run_count(bytes[pos]);
        if need > count {
            lemma_decoded_bounds(bytes, next, need - count);
        }
    }
}

/// Decoding does not look at what stands behind the last run it reads: a
/// buffer with the same bytes up to there is decoded alike.
pub proof fn lemma_decoded_prefix(a: Seq<u8>, b: Seq<u8>, pos: int, need: int)
    requires
        0 <= pos <= a.len(),
        decoded_from(a, pos, need) matches Some((_, end)) && end <= b.len() && forall|i: int|
            pos <= i < end ==> a[i] == b[i],
    ensures
        decoded_from(b, pos, need) == decoded_from(a, pos, need),
    decreases need,
{
    if need > 0 {
        let kind = run_kind(a[pos]);
        let count = run_count(a[pos]);
        let next = pos + 1 + payload_len(kind, count);
        if need > count {
            lemma_decoded_bounds(a, next, need - count);
            lemma_decoded_prefix(a, b, next, need - count);
        }
    }
}

} // verus!
