//! The pitch-band table.
//!
//! The analyzer watches 97 bands, one per semitone from A0 to A8. This
//! module names the bands in scientific pitch notation, labels them for
//! display, and carves the band table into the contiguous sub-ranges the
//! worker pool hands to its threads. The oscillator arithmetic itself is
//! floating point and lives with the workers; what is proved here is that
//! the carving loses no band, keeps their order, and does not depend on
//! how many threads share the work.

use vstd::prelude::*;

verus! {

/// Number of pitch bands: one per semitone from A0 to A8.
pub const SPN_NUM: usize = 97;

/// The bands in scientific pitch notation, in ascending order.
#[derive(Clone, Copy)]
pub enum SpnIdx {
    A0,
    AsBf0,
    B0,
    C1,
    CsDf1,
    D1,
    DsEf1,
    E1,
    F1,
    FsGf1,
    G1,
    GsAf1,
    A1,
    AsBf1,
    B1,
    C2,
    CsDf2,
    D2,
    DsEf2,
    E2,
    F2,
    FsGf2,
    G2,
    GsAf2,
    A2,
    AsBf2,
    B2,
    C3,
    CsDf3,
    D3,
    DsEf3,
    E3,
    F3,
    FsGf3,
    G3,
    GsAf3,
    A3,
    AsBf3,
    B3,
    C4,
    CsDf4,
    D4,
    DsEf4,
    E4,
    F4,
    FsGf4,
    G4,
    GsAf4,
    A4,
    AsBf4,
    B4,
    C5,
    CsDf5,
    D5,
    DsEf5,
    E5,
    F5,
    FsGf5,
    G5,
    GsAf5,
    A5,
    AsBf5,
    B5,
    C6,
    CsDf6,
    D6,
    DsEf6,
    E6,
    F6,
    FsGf6,
    G6,
    GsAf6,
    A6,
    AsBf6,
    B6,
    C7,
    CsDf7,
    D7,
    DsEf7,
    E7,
    F7,
    FsGf7,
    G7,
    GsAf7,
    A7,
    AsBf7,
    B7,
    C8,
    CsDf8,
    D8,
    DsEf8,
    E8,
    F8,
    FsGf8,
    G8,
    GsAf8,
    A8,
}

/// The display label of band `i`, in scientific pitch notation.
pub open spec fn spec_spn_label(i: int) -> Seq<char> {
    if i == 0 {
        "A0"@
    } else if i == 1 {
        "A#/Bb0"@
    } else if i == 2 {
        "B0"@
    } else if i == 3 {
        "C1"@
    } else if i == 4 {
        "C#/Db1"@
    } else if i == 5 {
        "D1"@
    } else if i == 6 {
        "D#/Eb1"@
    } else if i == 7 {
        "E1"@
    } else if i == 8 {
        "F1"@
    } else if i == 9 {
        "F#/Gb1"@
    } else if i == 10 {
        "G1"@
    } else if i == 11 {
        "G#/Ab1"@
    } else if i == 12 {
        "A1"@
    } else if i == 13 {
        "A#/Bb1"@
    } else if i == 14 {
        "B1"@
    } else if i == 15 {
        "C2"@
    } else if i == 16 {
        "C#/Db2"@
    } else if i == 17 {
        "D2"@
    } else if i == 18 {
        "D#/Eb2"@
    } else if i == 19 {
        "E2"@
    } else if i == 20 {
        "F2"@
    } else if i == 21 {
        "F#/Gb2"@
    } else if i == 22 {
        "G2"@
    } else if i == 23 {
        "G#/Ab2"@
    } else if i == 24 {
        "A2"@
    } else if i == 25 {
        "A#/Bb2"@
    } else if i == 26 {
        "B2"@
    } else if i == 27 {
        "C3"@
    } else if i == 28 {
        "C#/Db3"@
    } else if i == 29 {
        "D3"@
    } else if i == 30 {
        "D#/Eb3"@
    } else if i == 31 {
        "E3"@
    } else if i == 32 {
        "F3"@
    } else if i == 33 {
        "F#/Gb3"@
    } else if i == 34 {
        "G3"@
    } else if i == 35 {
        "G#/Ab3"@
    } else if i == 36 {
        "A3"@
    } else if i == 37 {
        "A#/Bb3"@
    } else if i == 38 {
        "B3"@
    } else if i == 39 {
        "C4"@
    } else if i == 40 {
        "C#/Db4"@
    } else if i == 41 {
        "D4"@
    } else if i == 42 {
        "D#/Eb4"@
    } else if i == 43 {
        "E4"@
    } else if i == 44 {
        "F4"@
    } else if i == 45 {
        "F#/Gb4"@
    } else if i == 46 {
        "G4"@
    } else if i == 47 {
        "G#/Ab4"@
    } else if i == 48 {
        "A4"@
    } else if i == 49 {
        "A#/Bb4"@
    } else if i == 50 {
        "B4"@
    } else if i == 51 {
        "C5"@
    } else if i == 52 {
        "C#/Db5"@
    } else if i == 53 {
        "D5"@
    } else if i == 54 {
        "D#/Eb5"@
    } else if i == 55 {
        "E5"@
    } else if i == 56 {
        "F5"@
    } else if i == 57 {
        "F#/Gb5"@
    } else if i == 58 {
        "G5"@
    } else if i == 59 {
        "G#/Ab5"@
    } else if i == 60 {
        "A5"@
    } else if i == 61 {
        "A#/Bb5"@
    } else if i == 62 {
        "B5"@
    } else if i == 63 {
        "C6"@
    } else if i == 64 {
        "C#/Db6"@
    } else if i == 65 {
        "D6"@
    } else if i == 66 {
        "D#/Eb6"@
    } else if i == 67 {
        "E6"@
    } else if i == 68 {
        "F6"@
    } else if i == 69 {
        "F#/Gb6"@
    } else if i == 70 {
        "G6"@
    } else if i == 71 {
        "G#/Ab6"@
    } else if i == 72 {
        "A6"@
    } else if i == 73 {
        "A#/Bb6"@
    } else if i == 74 {
        "B6"@
    } else if i == 75 {
        "C7"@
    } else if i == 76 {
        "C#/Db7"@
    } else if i == 77 {
        "D7"@
    } else if i == 78 {
        "D#/Eb7"@
    } else if i == 79 {
        "E7"@
    } else if i == 80 {
        "F7"@
    } else if i == 81 {
        "F#/Gb7"@
    } else if i == 82 {
        "G7"@
    } else if i == 83 {
        "G#/Ab7"@
    } else if i == 84 {
        "A7"@
    } else if i == 85 {
        "A#/Bb7"@
    } else if i == 86 {
        "B7"@
    } else if i == 87 {
        "C8"@
    } else if i == 88 {
        "C#/Db8"@
    } else if i == 89 {
        "D8"@
    } else if i == 90 {
        "D#/Eb8"@
    } else if i == 91 {
        "E8"@
    } else if i == 92 {
        "F8"@
    } else if i == 93 {
        "F#/Gb8"@
    } else if i == 94 {
        "G8"@
    } else if i == 95 {
        "G#/Ab8"@
    } else if i == 96 {
        "A8"@
    } else {
        Seq::empty()
    }
}

/// The display label of a band.
pub fn spn_label(idx: usize) -> (s: &'static str)
    requires
        idx < SPN_NUM,
    ensures
        s@ == spec_spn_label(idx as int),
{
    match idx {
        0 => "A0",
        1 => "A#/Bb0",
        2 => "B0",
        3 => "C1",
        4 => "C#/Db1",
        5 => "D1",
        6 => "D#/Eb1",
        7 => "E1",
        8 => "F1",
        9 => "F#/Gb1",
        10 => "G1",
        11 => "G#/Ab1",
        12 => "A1",
        13 => "A#/Bb1",
        14 => "B1",
        15 => "C2",
        16 => "C#/Db2",
        17 => "D2",
        18 => "D#/Eb2",
        19 => "E2",
        20 => "F2",
        21 => "F#/Gb2",
        22 => "G2",
        23 => "G#/Ab2",
        24 => "A2",
        25 => "A#/Bb2",
        26 => "B2",
        27 => "C3",
        28 => "C#/Db3",
        29 => "D3",
        30 => "D#/Eb3",
        31 => "E3",
        32 => "F3",
        33 => "F#/Gb3",
        34 => "G3",
        35 => "G#/Ab3",
        36 => "A3",
        37 => "A#/Bb3",
        38 => "B3",
        39 => "C4",
        40 => "C#/Db4",
        41 => "D4",
        42 => "D#/Eb4",
        43 => "E4",
        44 => "F4",
        45 => "F#/Gb4",
        46 => "G4",
        47 => "G#/Ab4",
        48 => "A4",
        49 => "A#/Bb4",
        50 => "B4",
        51 => "C5",
        52 => "C#/Db5",
        53 => "D5",
        54 => "D#/Eb5",
        55 => "E5",
        56 => "F5",
        57 => "F#/Gb5",
        58 => "G5",
        59 => "G#/Ab5",
        60 => "A5",
        61 => "A#/Bb5",
        62 => "B5",
        63 => "C6",
        64 => "C#/Db6",
        65 => "D6",
        66 => "D#/Eb6",
        67 => "E6",
        68 => "F6",
        69 => "F#/Gb6",
        70 => "G6",
        71 => "G#/Ab6",
        72 => "A6",
        73 => "A#/Bb6",
        74 => "B6",
        75 => "C7",
        76 => "C#/Db7",
        77 => "D7",
        78 => "D#/Eb7",
        79 => "E7",
        80 => "F7",
        81 => "F#/Gb7",
        82 => "G7",
        83 => "G#/Ab7",
        84 => "A7",
        85 => "A#/Bb7",
        86 => "B7",
        87 => "C8",
        88 => "C#/Db8",
        89 => "D8",
        90 => "D#/Eb8",
        91 => "E8",
        92 => "F8",
        93 => "F#/Gb8",
        94 => "G8",
        95 => "G#/Ab8",
        _ => "A8",
    }
}

/// The sub-range width used when `len` bands are shared by `t` threads:
/// the ceiling of their quotient, so the first `t - 1` threads take that
/// many bands each and the last takes what remains.
pub open spec fn spec_split_range(len: int, t: int) -> int {
    if len % t == 0 {
        len / t
    } else {
        len / t + 1
    }
}

/// The contiguous sub-ranges of a table cut at multiples of `r`, the
/// last one holding everything from `(t - 1) · r` on.
pub open spec fn split_parts<T>(table: Seq<T>, r: int, t: int) -> Seq<Seq<T>>
    decreases t,
{
    if t <= 1 {
        seq![table]
    } else {
        seq![table.take(r)] + split_parts(table.skip(r), r, t - 1)
    }
}

/// How a table is split across `t` threads.
pub open spec fn spec_split_table<T>(table: Seq<T>, t: int) -> Seq<Seq<T>> {
    split_parts(table, spec_split_range(table.len() as int, t), t)
}

/// Concatenating the sub-ranges in order restores the table: the
/// partition loses no element and keeps their order.
proof fn lemma_split_parts_flatten<T>(table: Seq<T>, r: int, t: int)
    requires
        1 <= t,
        0 <= r,
        (t - 1) * r <= table.len(),
    ensures
        split_parts(table, r, t).flatten() == table,
    decreases t,
{
    if t <= 1 {
        assert(seq![table].drop_first() =~= Seq::<Seq<T>>::empty());
        assert(Seq::<Seq<T>>::empty().flatten() == Seq::<T>::empty());
        assert(split_parts(table, r, t).flatten() =~= table);
    } else {
        assert(r <= (t - 1) * r && (t - 2) * r == (t - 1) * r - r) by (nonlinear_arith)
            requires
                2 <= t,
                0 <= r,
        ;
        lemma_split_parts_flatten(table.skip(r), r, t - 1);
        let parts = split_parts(table, r, t);
        assert(parts.first() == table.take(r));
        assert(parts.drop_first() =~= split_parts(table.skip(r), r, t - 1));
        assert(parts.flatten() == table.take(r) + split_parts(table.skip(r), r, t - 1).flatten());
        assert(table.take(r) + table.skip(r) =~= table);
    }
}

/// Worker-pool reassembly invariance: however many threads the band
/// table is split across, the sub-ranges concatenate back to the same
/// table — so the bands, their constants and their order are identical
/// for every thread count.
pub proof fn lemma_split_reassembles<T>(table: Seq<T>, t1: int, t2: int)
    requires
        1 <= t1,
        (t1 - 1) * spec_split_range(table.len() as int, t1) <= table.len(),
        1 <= t2,
        (t2 - 1) * spec_split_range(table.len() as int, t2) <= table.len(),
    ensures
        spec_split_table(table, t1).flatten() == table,
        spec_split_table(table, t1).flatten() == spec_split_table(table, t2).flatten(),
{
    // The sub-range width is nonnegative: the quotient of nonnegative
    // numbers is.
    vstd::arithmetic::div_mod::lemma_div_is_ordered_by_denominator(table.len() as int, 1, t1);
    vstd::arithmetic::div_mod::lemma_div_is_ordered_by_denominator(table.len() as int, 1, t2);
    lemma_split_parts_flatten(table, spec_split_range(table.len() as int, t1), t1);
    lemma_split_parts_flatten(table, spec_split_range(table.len() as int, t2), t2);
}

/// Where each sub-range stands in the partition.
proof fn lemma_split_parts_index<T>(table: Seq<T>, r: int, t: int, i: int)
    requires
        1 <= t,
        0 <= r,
        (t - 1) * r <= table.len(),
        0 <= i < t,
    ensures
        split_parts(table, r, t).len() == t,
        i < t - 1 ==> split_parts(table, r, t)[i] == table.subrange(i * r, (i + 1) * r),
        i == t - 1 ==> split_parts(table, r, t)[i] == table.skip((t - 1) * r),
    decreases t,
{
    let parts = split_parts(table, r, t);
    if t == 1 {
        assert(parts[0] == table);
        assert(table.skip(0) =~= table);
    } else {
        assert(r <= (t - 1) * r && (t - 2) * r == (t - 1) * r - r) by (nonlinear_arith)
            requires
                2 <= t,
                0 <= r,
        ;
        if i == 0 {
            lemma_split_parts_index(table.skip(r), r, t - 1, 0);
            assert(parts[0] == table.take(r));
            assert(r <= table.len()) by (nonlinear_arith)
                requires
                    2 <= t,
                    0 <= r,
                    (t - 1) * r <= table.len(),
            ;
            assert(table.take(r) =~= table.subrange(0, r));
            assert(parts[0] == table.subrange(0 * r, (0 + 1) * r));
            assert(parts[i] == table.subrange(i * r, (i + 1) * r));
        } else {
            lemma_split_parts_index(table.skip(r), r, t - 1, i - 1);
            assert(parts[i] == split_parts(table.skip(r), r, t - 1)[i - 1]);
            if i < t - 1 {
                assert(r + (i - 1) * r == i * r && r + i * r == (i + 1) * r && 0 <= (i - 1) * r
                    && (i + 1) * r <= table.len()) by (nonlinear_arith)
                    requires
                        2 <= t,
                        0 <= r,
                        1 <= i < t - 1,
                        (t - 1) * r <= table.len(),
                ;
                assert(table.skip(r).subrange((i - 1) * r, i * r) =~= table.subrange(
                    i * r,
                    (i + 1) * r,
                ));
            } else {
                assert(r + (t - 2) * r == (t - 1) * r) by (nonlinear_arith);
                assert(table.skip(r).skip((t - 2) * r) =~= table.skip((t - 1) * r));
            }
        }
    }
}

/// Copies `src[start..end]` into a fresh vector.
fn copy_range<T: Copy>(src: &Vec<T>, start: usize, end: usize) -> (out: Vec<T>)
    requires
        start <= end <= src@.len(),
    ensures
        out@ == src@.subrange(start as int, end as int),
{
    let mut out: Vec<T> = Vec::new();
    let mut i: usize = start;
    while i < end
        invariant
            start <= i <= end <= src@.len(),
            out@ == src@.subrange(start as int, i as int),
        decreases end - i,
    {
        out.push(src[i]);
        i = i + 1;
        proof {
            assert(out@ =~= src@.subrange(start as int, i as int));
        }
    }
    out
}

/// The ceiling width of the sub-ranges for the given thread count.
pub fn split_pitch_range(len: usize, thread_per_ch: usize) -> (r: usize)
    requires
        1 <= thread_per_ch,
        len < usize::MAX,
    ensures
        r == spec_split_range(len as int, thread_per_ch as int),
{
    if len % thread_per_ch == 0 {
        len / thread_per_ch
    } else {
        len / thread_per_ch + 1
    }
}

/// Cuts a band table into one contiguous sub-range per thread: the first
/// `t - 1` threads take the ceiling width, the last what remains.
#[verifier::loop_isolation(false)]
pub fn split_table<T: Copy>(table: &Vec<T>, thread_per_ch: usize) -> (parts: Vec<Vec<T>>)
    requires
        1 <= thread_per_ch,
        table@.len() < usize::MAX,
        (thread_per_ch - 1) * spec_split_range(table@.len() as int, thread_per_ch as int)
            <= table@.len(),
    ensures
        parts@.map_values(|p: Vec<T>| p@) == spec_split_table(table@, thread_per_ch as int),
{
    let len = table.len();
    let t = thread_per_ch;
    let r = split_pitch_range(len, t);
    let ghost rr = r as int;
    let mut parts: Vec<Vec<T>> = Vec::new();
    let mut i: usize = 0;
    while i < t
        invariant
            0 <= i <= t,
            parts@.len() == i,
            forall|j: int|
                0 <= j < i ==> (#[trigger] parts@[j])@ == split_parts(table@, rr, t as int)[j],
        decreases t - i,
    {
        proof {
            lemma_split_parts_index(table@, rr, t as int, i as int);
            assert(0 <= i * rr && i * rr + rr == (i + 1) * rr && i * rr <= (t - 1) * rr)
                by (nonlinear_arith)
                requires
                    0 <= i <= t - 1,
                    0 <= rr,
            ;
        }
        let part: Vec<T>;
        if i < t - 1 {
            proof {
                assert((i + 1) * rr <= (t - 1) * rr) by (nonlinear_arith)
                    requires
                        0 <= i < t - 1,
                        0 <= rr,
                ;
            }
            part = copy_range(table, i * r, i * r + r);
            proof {
                assert(part@ =~= table@.subrange(i as int * rr, (i as int + 1) * rr));
            }
        } else {
            proof {
                assert(i * rr == (t - 1) * rr) by (nonlinear_arith)
                    requires
                        i == t - 1,
                ;
            }
            part = copy_range(table, i * r, len);
            proof {
                assert(part@ =~= table@.skip((t - 1) * rr));
            }
        }
        parts.push(part);
        i = i + 1;
    }
    proof {
        lemma_split_parts_index(table@, rr, t as int, 0);
        assert(parts@.map_values(|p: Vec<T>| p@) =~= spec_split_table(table@, t as int));
    }
    parts
}

/// The sample-sequence view of a vector of rows.
pub open spec fn rows_view<T>(rows: Seq<Vec<T>>) -> Seq<Seq<T>> {
    rows.map_values(|r: Vec<T>| r@)
}

/// The rows gathered for channel `c` from a report stream: every report
/// carries a channel index and a block of rows; the blocks of channel
/// `c` concatenate in report order.
pub open spec fn gathered<T>(reports: Seq<(usize, Vec<Vec<T>>)>, c: int) -> Seq<Seq<T>>
    decreases reports.len(),
{
    if reports.len() == 0 {
        Seq::empty()
    } else {
        (if reports[0].0 == c {
            rows_view(reports[0].1@)
        } else {
            Seq::empty()
        }) + gathered(reports.drop_first(), c)
    }
}

/// Taking one more report extends a channel's gathered rows by that
/// report's block exactly when the report belongs to the channel.
proof fn lemma_gathered_take_step<T>(reports: Seq<(usize, Vec<Vec<T>>)>, c: int, j: int)
    requires
        0 <= j < reports.len(),
    ensures
        gathered(reports.take(j + 1), c) == gathered(reports.take(j), c) + (if reports[j].0 == c {
            rows_view(reports[j].1@)
        } else {
            Seq::empty()
        }),
    decreases j,
{
    if j == 0 {
        assert(reports.take(0) =~= Seq::<(usize, Vec<Vec<T>>)>::empty());
        assert(reports.take(1).drop_first() =~= Seq::<(usize, Vec<Vec<T>>)>::empty());
        assert(reports.take(1)[0] == reports[0]);
        assert(gathered(reports.take(1), c) =~= gathered(reports.take(0), c) + (if reports[0].0
            == c {
            rows_view(reports[0].1@)
        } else {
            Seq::empty()
        }));
    } else {
        lemma_gathered_take_step(reports.drop_first(), c, j - 1);
        assert(reports.take(j + 1).drop_first() =~= reports.drop_first().take(j));
        assert(reports.take(j).drop_first() =~= reports.drop_first().take(j - 1));
        assert(reports.take(j + 1)[0] == reports[0]);
        assert(reports.take(j)[0] == reports[0]);
        assert(reports.drop_first()[j - 1] == reports[j]);
        assert(gathered(reports.take(j + 1), c) =~= gathered(reports.take(j), c) + (if reports[j].0
            == c {
            rows_view(reports[j].1@)
        } else {
            Seq::empty()
        }));
    }
}

/// Reassembles the full spectrum from worker reports: channel `c` of the
/// result is the concatenation, in report order, of the row blocks the
/// reports carry for channel `c`. Draining the workers in construction
/// order therefore rebuilds each channel's bands in ascending order.
#[verifier::loop_isolation(false)]
pub fn assemble_spectrum<T: Copy>(ch_num: usize, reports: &Vec<(usize, Vec<Vec<T>>)>) -> (r: Vec<
    Vec<Vec<T>>,
>)
    requires
        forall|i: int| 0 <= i < reports@.len() ==> (#[trigger] reports@[i]).0 < ch_num,
    ensures
        r@.len() == ch_num,
        forall|c: int| 0 <= c < ch_num ==> rows_view((#[trigger] r@[c])@) == gathered(reports@, c),
{
    let n = reports.len();
    let mut r: Vec<Vec<Vec<T>>> = Vec::new();
    let mut c: usize = 0;
    while c < ch_num
        invariant
            0 <= c <= ch_num,
            r@.len() == c,
            forall|cc: int|
                0 <= cc < c ==> rows_view((#[trigger] r@[cc])@) == gathered(reports@, cc),
        decreases ch_num - c,
    {
        let mut chan: Vec<Vec<T>> = Vec::new();
        let mut j: usize = 0;
        while j < n
            invariant
                0 <= j <= n,
                c < ch_num,
                rows_view(chan@) == gathered(reports@.take(j as int), c as int),
            decreases n - j,
        {
            proof {
                lemma_gathered_take_step(reports@, c as int, j as int);
            }
            if reports[j].0 == c {
                let rows = reports[j].1.len();
                let ghost block_start = chan@.len();
                proof {
                    assert(rows_view(reports@[j as int].1@.take(0)) =~= Seq::<Seq<T>>::empty());
                    assert(rows_view(chan@) =~= gathered(reports@.take(j as int), c as int)
                        + rows_view(reports@[j as int].1@.take(0)));
                }
                let mut k: usize = 0;
                while k < rows
                    invariant
                        0 <= k <= rows,
                        j < n,
                        rows == reports@[j as int].1@.len(),
                        chan@.len() == block_start + k,
                        rows_view(chan@) == gathered(reports@.take(j as int), c as int)
                            + rows_view(reports@[j as int].1@.take(k as int)),
                    decreases rows - k,
                {
                    let row_len = reports[j].1[k].len();
                    let row = copy_range(&reports[j].1[k], 0, row_len);
                    proof {
                        assert(row@ =~= reports@[j as int].1@[k as int]@);
                    }
                    let ghost prev_chan = chan@;
                    chan.push(row);
                    k = k + 1;
                    proof {
                        let g = gathered(reports@.take(j as int), c as int);
                        let lhs = rows_view(chan@);
                        let rhs = g + rows_view(reports@[j as int].1@.take(k as int));
                        assert(rows_view(prev_chan).len() == prev_chan.len());
                        assert(lhs.len() == rhs.len());
                        assert forall|i: int| 0 <= i < lhs.len() implies lhs[i] == rhs[i] by {
                            assert(lhs[i] == chan@[i]@);
                            if i < prev_chan.len() {
                                assert(chan@[i] == prev_chan[i]);
                                assert(rows_view(prev_chan)[i] == prev_chan[i]@);
                                if i >= g.len() {
                                    assert(rows_view(reports@[j as int].1@.take(k - 1))[i - g.len()]
                                        == reports@[j as int].1@.take(k - 1)[i - g.len()]@);
                                    assert(rows_view(reports@[j as int].1@.take(k as int))[i
                                        - g.len()] == reports@[j as int].1@.take(k as int)[i
                                        - g.len()]@);
                                }
                            } else {
                                assert(chan@[i] == row);
                                assert(rows_view(reports@[j as int].1@.take(k as int))[i - g.len()]
                                    == reports@[j as int].1@.take(k as int)[i - g.len()]@);
                            }
                        }
                        assert(lhs =~= rhs);
                    }
                }
                proof {
                    assert(reports@[j as int].1@.take(rows as int) =~= reports@[j as int].1@);
                }
            } else {
                proof {
                    assert(rows_view(chan@) =~= gathered(reports@.take(j as int), c as int)
                        + Seq::<Seq<T>>::empty());
                }
            }
            j = j + 1;
        }
        proof {
            assert(reports@.take(n as int) =~= reports@);
        }
        r.push(chan);
        c = c + 1;
    }
    r
}

} // verus!
