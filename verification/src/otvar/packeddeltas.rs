//! Packed deltas within a tuple variation store.
//!
//! A delta array is stored as a sequence of runs. Each run starts with a
//! control byte that gives its length, from 1 to 64, and says whether its
//! deltas are all zero and left out, stored as bytes, or stored as words.
//! The stream does not say how many deltas it holds: the reader is told.
//!
//! The encoder cuts the array into stretches, each as long as deltas follow
//! that are stored in one way, and stores each stretch as runs of at most
//! 64 deltas.

pub mod laws;

use crate::cursor::{
    bits_of_i16, i16_bits, i16s_at, i16s_be, i8_from_byte, put_i16_array, put_u8, Reader,
};
use crate::error::Error;
use laws::lemma_stretch_end_bounds;
use vstd::prelude::*;

verus! {

/// In a run control byte, signifies that the deltas are two-byte values.
pub const DELTAS_ARE_WORDS: u8 = 0x40;

/// In a run control byte, signifies that the deltas are zero and omitted.
pub const DELTAS_ARE_ZERO: u8 = 0x80;

/// Mask off a run control byte to find the number of deltas in the run, minus one.
pub const DELTA_RUN_COUNT_MASK: u8 = 0x3f;

/// The most deltas that one control byte can announce.
pub const MAX_RUN_LENGTH: usize = 64;

/// An array of packed deltas.
///
/// This is the underlying storage for delta values in the cvt and gvar tables.
#[derive(Debug, PartialEq)]
pub struct PackedDeltas(pub Vec<i16>);

impl View for PackedDeltas {
    type V = Seq<i16>;

    open spec fn view(&self) -> Seq<i16> {
        self.0@
    }
}

/// How the deltas of a run are stored.
#[derive(Debug, Clone, Copy, PartialEq, Eq, Structural)]
pub enum RunKind {
    /// All deltas are zero, and none is stored.
    Zeros,
    /// Each delta is stored as one signed byte.
    Bytes,
    /// Each delta is stored as a signed big-endian word.
    Words,
}

/// Whether `d` can be stored as one signed byte.
pub open spec fn fits_byte(d: i16) -> bool {
    -128 <= d <= 127
}

/// The kind of the stretch that starts with the delta `d`.
pub open spec fn kind_of(d: i16) -> RunKind {
    if d == 0 {
        RunKind::Zeros
    } else if fits_byte(d) {
        RunKind::Bytes
    } else {
        RunKind::Words
    }
}

/// Whether a stretch of the given kind that has come as far as `pos` takes
/// the delta there too.
///
/// A stretch of zeros takes zeros. A stretch of bytes takes what fits a
/// byte, but leaves a zero that another zero follows to a stretch of zeros.
/// A stretch of words takes everything but a zero, and but a delta that
/// fits a byte when the next one does too.
pub open spec fn stretch_takes(v: Seq<i16>, kind: RunKind, pos: int) -> bool
    recommends
        0 <= pos < v.len(),
{
    match kind {
        RunKind::Zeros => v[pos] == 0,
        RunKind::Bytes => fits_byte(v[pos]) && !(v[pos] == 0 && pos + 1 < v.len() && v[pos + 1]
            == 0),
        RunKind::Words => v[pos] != 0 && !(fits_byte(v[pos]) && pos + 1 < v.len() && fits_byte(
            v[pos + 1],
        )),
    }
}

/// Where a stretch of the given kind that has come as far as `pos` ends:
/// the first position from `pos` on that it does not take.
pub open spec fn stretch_end(v: Seq<i16>, kind: RunKind, pos: int) -> int
    decreases v.len() - pos,
{
    if 0 <= pos < v.len() && stretch_takes(v, kind, pos) {
        stretch_end(v, kind, pos + 1)
    } else {
        pos
    }
}

/// The control byte of a run of `count` deltas, `count` from 1 to 64.
pub open spec fn control_byte(kind: RunKind, count: int) -> u8
    recommends
        1 <= count <= 64,
{
    let low = (count - 1) as u8;
    match kind {
        RunKind::Zeros => DELTAS_ARE_ZERO | low,
        RunKind::Bytes => low,
        RunKind::Words => DELTAS_ARE_WORDS | low,
    }
}

/// The byte that stores a delta of a byte run: the low byte of the delta,
/// which holds a delta that fits a byte in two's complement.
pub open spec fn delta_byte(d: i16) -> u8 {
    (i16_bits(d) % 256) as u8
}

/// The bytes that follow the control byte of a run with the deltas `vals`.
pub open spec fn payload(kind: RunKind, vals: Seq<i16>) -> Seq<u8> {
    match kind {
        RunKind::Zeros => Seq::empty(),
        RunKind::Bytes => Seq::new(vals.len(), |i: int| delta_byte(vals[i])),
        RunKind::Words => i16s_be(vals),
    }
}

/// One run as it is stored: the control byte, then the payload.
pub open spec fn stored_run(kind: RunKind, vals: Seq<i16>) -> Seq<u8>
    recommends
        1 <= vals.len() <= 64,
{
    seq![control_byte(kind, vals.len() as int)] + payload(kind, vals)
}

/// A stretch of deltas of one kind as it is stored: as runs of 64 deltas
/// while so many are left, then as one shorter run if any are left.
pub open spec fn stored_stretch(kind: RunKind, vals: Seq<i16>) -> Seq<u8>
    decreases vals.len(),
{
    if vals.len() == 0 {
        Seq::empty()
    } else if vals.len() >= 64 {
        stored_run(kind, vals.take(64)) + stored_stretch(kind, vals.skip(64))
    } else {
        stored_run(kind, vals)
    }
}

/// The stored form of the deltas of `v` from `pos` on: the stretch that
/// starts at `pos`, of the kind of the delta there and as long as a stretch
/// of that kind goes on, then the stored form of what follows it.
pub open spec fn encoded_from(v: Seq<i16>, pos: int) -> Seq<u8>
    decreases v.len() - pos,
    via encoded_from_decreases
{
    if 0 <= pos < v.len() {
        let kind = kind_of(v[pos]);
        let end = stretch_end(v, kind, pos);
        stored_stretch(kind, v.subrange(pos, end)) + encoded_from(v, end)
    } else {
        Seq::empty()
    }
}

#[via_fn]
proof fn encoded_from_decreases(v: Seq<i16>, pos: int) {
    if 0 <= pos < v.len() {
        lemma_stretch_end_bounds(v, kind_of(v[pos]), pos);
    }
}

/// The stored form of the delta array `v`.
pub open spec fn encoded(v: Seq<i16>) -> Seq<u8> {
    encoded_from(v, 0)
}

/// The kind of run that a control byte announces. The zero flag wins over
/// the word flag.
pub open spec fn run_kind(control: u8) -> RunKind {
    if control & DELTAS_ARE_ZERO != 0 {
        RunKind::Zeros
    } else if control & DELTAS_ARE_WORDS != 0 {
        RunKind::Words
    } else {
        RunKind::Bytes
    }
}

/// How many deltas the run of a control byte holds: its low six bits, plus one.
pub open spec fn run_count(control: u8) -> int {
    (control & DELTA_RUN_COUNT_MASK) + 1
}

/// How many bytes follow the control byte of a run of `count` deltas.
pub open spec fn payload_len(kind: RunKind, count: int) -> int {
    match kind {
        RunKind::Zeros => 0,
        RunKind::Bytes => count,
        RunKind::Words => 2 * count,
    }
}

/// The deltas of a run of `count` deltas whose payload starts at `pos`.
pub open spec fn run_deltas(bytes: Seq<u8>, pos: int, kind: RunKind, count: int) -> Seq<i16> {
    match kind {
        RunKind::Zeros => Seq::new(count as nat, |i: int| 0i16),
        RunKind::Bytes => Seq::new(count as nat, |i: int| i8_from_byte(bytes[pos + i]) as i16),
        RunKind::Words => i16s_at(bytes, pos, count as nat),
    }
}

/// `deltas` put before the deltas of a decoding, if there is one.
pub open spec fn prepend(deltas: Seq<i16>, rest: Option<(Seq<i16>, int)>) -> Option<
    (Seq<i16>, int),
> {
    match rest {
        Some((more, end)) => Some((deltas + more, end)),
        None => None,
    }
}

/// What decoding finds in `bytes` from `pos` on when `need` more deltas are
/// asked for: the deltas, and the position after the last run that was read.
///
/// Whole runs are read until they hold `need` deltas or more; the last run
/// is not cut short. There is no decoding when the buffer ends before that,
/// at a control byte or inside a payload.
pub open spec fn decoded_from(bytes: Seq<u8>, pos: int, need: int) -> Option<(Seq<i16>, int)>
    decreases need,
{
    if need <= 0 {
        Some((Seq::empty(), pos))
    } else if !(0 <= pos < bytes.len()) {
        None
    } else {
        let kind = run_kind(bytes[pos]);
        let count = run_count(bytes[pos]);
        let next = pos + 1 + payload_len(kind, count);
        if next > bytes.len() {
            None
        } else if need <= count {
            Some((run_deltas(bytes, pos + 1, kind, count), next))
        } else {
            prepend(
                run_deltas(bytes, pos + 1, kind, count),
                decoded_from(bytes, next, need - count),
            )
        }
    }
}

/// What decoding finds in `bytes` when `num_points` deltas are asked for.
pub open spec fn decoded(bytes: Seq<u8>, num_points: nat) -> Option<Seq<i16>> {
    match decoded_from(bytes, 0, num_points as int) {
        Some((deltas, _)) => Some(deltas),
        None => None,
    }
}

/// The kind of the stretch that starts with the delta `d`.
pub fn kind_of_delta(d: i16) -> (kind: RunKind)
    ensures
        kind == kind_of(d),
{
    if d == 0 {
        RunKind::Zeros
    } else if -128 <= d && d <= 127 {
        RunKind::Bytes
    } else {
        RunKind::Words
    }
}

/// Whether a stretch of the given kind that has come as far as `pos` takes
/// the delta there too.
pub fn takes_next(deltas: &[i16], kind: RunKind, pos: usize) -> (b: bool)
    requires
        pos < deltas.len(),
    ensures
        b == stretch_takes(deltas@, kind, pos as int),
{
    let value = deltas[pos];
    match kind {
        RunKind::Zeros => value == 0,
        RunKind::Bytes => {
            // Avoid a sequence of more than one zero in a run.
            -128 <= value && value <= 127 && !(value == 0 && pos + 1 < deltas.len() && deltas[pos
                + 1] == 0)
        },
        RunKind::Words => {
            // Avoid a single zero, and a sequence of more than one byte-value in a run.
            value != 0 && !(-128 <= value && value <= 127 && pos + 1 < deltas.len() && -128
                <= deltas[pos + 1] && deltas[pos + 1] <= 127)
        },
    }
}

/// Where the stretch of the given kind that starts at `start` ends.
pub fn find_stretch_end(deltas: &[i16], kind: RunKind, start: usize) -> (end: usize)
    requires
        start <= deltas.len(),
    ensures
        end == stretch_end(deltas@, kind, start as int),
        start <= end <= deltas.len(),
{
    let mut pos = start;
    while pos < deltas.len() && takes_next(deltas, kind, pos)
        invariant
            start <= pos <= deltas.len(),
            stretch_end(deltas@, kind, start as int) == stretch_end(deltas@, kind, pos as int),
        decreases deltas.len() - pos,
    {
        pos = pos + 1;
    }
    pos
}

/// Appends one run: the control byte for the deltas from `from` up to `to`,
/// then their payload.
pub fn put_run(out: &mut Vec<u8>, kind: RunKind, deltas: &[i16], from: usize, to: usize)
    requires
        from < to <= deltas.len(),
        to - from <= 64,
    ensures
        final(out)@ == old(out)@ + stored_run(kind, deltas@.subrange(from as int, to as int)),
{
    let ghost vals = deltas@.subrange(from as int, to as int);
    let low = (to - from - 1) as u8;
    match kind {
        RunKind::Zeros => {
            put_u8(out, DELTAS_ARE_ZERO | low);
        },
        RunKind::Bytes => {
            put_u8(out, low);
            let mut i: usize = from;
            while i < to
                invariant
                    from <= i <= to <= deltas.len(),
                    vals == deltas@.subrange(from as int, to as int),
                    out@ == old(out)@.push(low) + payload(RunKind::Bytes, vals.take(i - from)),
                decreases to - i,
            {
                put_u8(out, (bits_of_i16(deltas[i]) % 256) as u8);
                i = i + 1;
            }
        },
        RunKind::Words => {
            put_u8(out, DELTAS_ARE_WORDS | low);
            put_i16_array(out, &deltas[from..to]);
        },
    }
}

/// Appends a stretch of deltas of one kind, from `start` up to `end`: as
/// runs of 64 deltas while so many are left, then as one shorter run if any
/// are left.
pub fn put_stretch(out: &mut Vec<u8>, kind: RunKind, deltas: &[i16], start: usize, end: usize)
    requires
        start <= end <= deltas.len(),
    ensures
        final(out)@ == old(out)@ + stored_stretch(
            kind,
            deltas@.subrange(start as int, end as int),
        ),
{
    let mut start_of_run = start;
    while end - start_of_run >= MAX_RUN_LENGTH
        invariant
            start <= start_of_run <= end <= deltas.len(),
            out@ + stored_stretch(kind, deltas@.subrange(start_of_run as int, end as int)) == old(
                out,
            )@ + stored_stretch(kind, deltas@.subrange(start as int, end as int)),
        decreases end - start_of_run,
    {
        let ghost rest = deltas@.subrange(start_of_run as int, end as int);
        put_run(out, kind, deltas, start_of_run, start_of_run + MAX_RUN_LENGTH);
        assert(rest.skip(64) =~= deltas@.subrange(start_of_run + 64, end as int));
        start_of_run = start_of_run + MAX_RUN_LENGTH;
    }
    if end > start_of_run {
        put_run(out, kind, deltas, start_of_run, end);
    }
}

/// Encodes a delta array.
///
/// The deltas are classified from left to right. A zero starts a stretch of
/// zeros, which goes on while zeros follow. A delta that fits a signed byte
/// starts a stretch of bytes, which goes on while such deltas follow, but
/// stops before a zero that another zero follows. Any other delta starts a
/// stretch of words, which stops before a zero and before two deltas in a
/// row that fit a byte. Each stretch is stored as runs of 64 deltas while so
/// many are left, then as one shorter run if any are left.
pub fn encode_packed_deltas(deltas: &[i16]) -> (out: Vec<u8>)
    ensures
        out@ == encoded(deltas@),
{
    let mut out: Vec<u8> = Vec::new();
    let mut pos: usize = 0;
    while pos < deltas.len()
        invariant
            pos <= deltas.len(),
            encoded(deltas@) == out@ + encoded_from(deltas@, pos as int),
        decreases deltas.len() - pos,
    {
        let kind = kind_of_delta(deltas[pos]);
        let end = find_stretch_end(deltas, kind, pos);
        proof {
            lemma_stretch_end_bounds(deltas@, kind, pos as int);
        }
        put_stretch(&mut out, kind, deltas, pos, end);
        pos = end;
    }
    out
}

/// The kind of run that a control byte announces.
pub fn kind_of_control(control: u8) -> (kind: RunKind)
    ensures
        kind == run_kind(control),
{
    if control & DELTAS_ARE_ZERO != 0 {
        RunKind::Zeros
    } else if control & DELTAS_ARE_WORDS != 0 {
        RunKind::Words
    } else {
        RunKind::Bytes
    }
}

/// How many deltas the run of a control byte holds.
pub fn count_of_control(control: u8) -> (count: usize)
    ensures
        count == run_count(control),
        1 <= count <= 64,
{
    // The low 6 bits specify the number of delta values in the run minus 1.
    let low = control & DELTA_RUN_COUNT_MASK;
    assert(low <= 63) by (bit_vector)
        requires
            low == control & 0x3f,
    ;
    low as usize + 1
}

/// Appends `n` zeros.
fn push_zeros(deltas: &mut Vec<i16>, n: usize)
    ensures
        final(deltas)@ == old(deltas)@ + Seq::new(n as nat, |i: int| 0i16),
{
    let mut i: usize = 0;
    while i < n
        invariant
            i <= n,
            deltas@ == old(deltas)@ + Seq::new(i as nat, |i: int| 0i16),
        decreases n - i,
    {
        deltas.push(0);
        i = i + 1;
    }
}

/// Appends each of `vals`, widened to sixteen bits.
fn push_widened(deltas: &mut Vec<i16>, vals: &Vec<i8>)
    ensures
        final(deltas)@ == old(deltas)@ + Seq::new(vals@.len(), |i: int| vals@[i] as i16),
{
    let mut i: usize = 0;
    while i < vals.len()
        invariant
            i <= vals.len(),
            deltas@ == old(deltas)@ + Seq::new(i as nat, |i: int| vals@[i] as i16),
        decreases vals.len() - i,
    {
        deltas.push(vals[i] as i16);
        i = i + 1;
    }
}

/// Reads packed deltas at the reader's position until `num_points` deltas
/// or more have been read.
///
/// Whole runs are read: where the last run holds more deltas than were still
/// asked for, all of them are returned. Nothing is read after that run. The
/// read fails where the buffer ends before `num_points` deltas were read.
pub fn read_packed_deltas(reader: &mut Reader, num_points: usize) -> (res: Result<
    PackedDeltas,
    Error,
>)
    ensures
        final(reader).bytes() == old(reader).bytes(),
        match res {
            Ok(deltas) => decoded_from(old(reader).bytes(), old(reader).pos(), num_points as int)
                == Some((deltas@, final(reader).pos())),
            Err(e) => e == Error::MalformedTable && decoded_from(
                old(reader).bytes(),
                old(reader).pos(),
                num_points as int,
            ) is None,
        },
{
    let ghost bytes = reader.bytes();
    let ghost whole = decoded_from(bytes, reader.pos(), num_points as int);
    let mut res: Vec<i16> = Vec::new();
    while res.len() < num_points
        invariant
            reader.bytes() == bytes,
            bytes == old(reader).bytes(),
            whole == decoded_from(bytes, old(reader).pos(), num_points as int),
            res.len() < num_points ==> whole == prepend(
                res@,
                decoded_from(bytes, reader.pos(), num_points - res.len()),
            ),
            res.len() >= num_points ==> whole == Some((res@, reader.pos())),
        decreases (if res.len() < num_points {
                num_points - res.len()
            } else {
                0
            }),
    {
        proof {
            use_type_invariant(&*reader);
        }
        let control = match reader.read_u8() {
            Ok(control) => control,
            Err(e) => {
                return Err(e);
            },
        };
        let kind = kind_of_control(control);
        let run_count = count_of_control(control);
        match kind {
            RunKind::Zeros => {
                push_zeros(&mut res, run_count);
            },
            RunKind::Words => {
                let mut words = match reader.read_i16_array(run_count) {
                    Ok(words) => words,
                    Err(e) => {
                        return Err(e);
                    },
                };
                res.append(&mut words);
            },
            RunKind::Bytes => {
                let delta_bytes = match reader.read_i8_array(run_count) {
                    Ok(delta_bytes) => delta_bytes,
                    Err(e) => {
                        return Err(e);
                    },
                };
                push_widened(&mut res, &delta_bytes);
            },
        }
    }
    Ok(PackedDeltas(res))
}

/// Deserialize the packed deltas array from a binary buffer.
/// The number of points must be provided.
///
/// Decoding stops after the run with which `num_points` deltas are reached,
/// not at the end of the buffer, and fails where the buffer ends before.
pub fn from_bytes(s: &[u8], num_points: usize) -> (res: Result<PackedDeltas, Error>)
    ensures
        match res {
            Ok(deltas) => decoded(s@, num_points as nat) == Some(deltas@),
            Err(e) => e == Error::MalformedTable && decoded(s@, num_points as nat) is None,
        },
{
    let mut reader = Reader::new(s);
    read_packed_deltas(&mut reader, num_points)
}

} // verus!
