//! The trailer `guppty build` appends to a copy of its own executable: the
//! program's source bytes, their count as eight little-endian bytes, and a
//! fixed marker. A built executable finds its program again from the end.

use vstd::prelude::*;

verus! {

/// The marker that ends a built executable: `"\nGUPPTY_EMBEDDED_PROGRAM_V1\n"`.
pub open spec fn marker() -> Seq<u8> {
    seq![
        10u8, 71u8, 85u8, 80u8, 80u8, 84u8, 89u8, 95u8, 69u8, 77u8, 66u8, 69u8, 68u8, 68u8,
        69u8, 68u8, 95u8, 80u8, 82u8, 79u8, 71u8, 82u8, 65u8, 77u8, 95u8, 86u8, 49u8, 10u8,
    ]
}

/// A count as eight bytes, least significant first.
pub open spec fn count_bytes(n: u64) -> Seq<u8> {
    seq![
        n as u8,
        (n >> 8u64) as u8,
        (n >> 16u64) as u8,
        (n >> 24u64) as u8,
        (n >> 32u64) as u8,
        (n >> 40u64) as u8,
        (n >> 48u64) as u8,
        (n >> 56u64) as u8,
    ]
}

/// The count eight little-endian bytes hold.
pub open spec fn count_of(b: Seq<u8>) -> u64 {
    (b[0] as u64) | ((b[1] as u64) << 8u64) | ((b[2] as u64) << 16u64) | ((b[3] as u64) << 24u64)
        | ((b[4] as u64) << 32u64) | ((b[5] as u64) << 40u64) | ((b[6] as u64) << 48u64) | ((
    b[7] as u64) << 56u64)
}

/// What `build` appends after the executable: the source, its length, the marker.
pub open spec fn trailer(source: Seq<u8>) -> Seq<u8> {
    source + count_bytes(source.len() as u64) + marker()
}

/// Where the embedded source lies in a file's bytes: the file must end with
/// the marker after at least eight more bytes, and the count those eight
/// bytes hold must fit before them. The range runs up to the count.
pub open spec fn embedded_range(bytes: Seq<u8>) -> Option<(int, int)> {
    let m = marker();
    if bytes.len() >= m.len() + 8 && bytes.skip(bytes.len() - m.len()) == m {
        let count_end = bytes.len() - m.len();
        let count_start = count_end - 8;
        let n = count_of(bytes.subrange(count_start, count_end));
        if n <= count_start {
            Some((count_start - n, count_start))
        } else {
            None
        }
    } else {
        None
    }
}

proof fn lemma_count_round_trip(n: u64)
    ensures
        count_of(count_bytes(n)) == n,
{
    let b = count_bytes(n);
    assert(b[0] == n as u8 && b[1] == (n >> 8u64) as u8 && b[2] == (n >> 16u64) as u8 && b[3] == (n
        >> 24u64) as u8 && b[4] == (n >> 32u64) as u8 && b[5] == (n >> 40u64) as u8 && b[6] == (n
        >> 48u64) as u8 && b[7] == (n >> 56u64) as u8);
    assert(((n as u8) as u64) | ((((n >> 8u64) as u8) as u64) << 8u64) | ((((n >> 16u64) as u8) as u64)
        << 16u64) | ((((n >> 24u64) as u8) as u64) << 24u64) | ((((n >> 32u64) as u8) as u64)
        << 32u64) | ((((n >> 40u64) as u8) as u64) << 40u64) | ((((n >> 48u64) as u8) as u64)
        << 48u64) | ((((n >> 56u64) as u8) as u64) << 56u64) == n) by (bit_vector);
}

/// A built executable gives back exactly the program built into it: after
/// any executable bytes, the trailer of a source is found, and its range is
/// that source.
pub proof fn lemma_embedded_round_trip(exe: Seq<u8>, source: Seq<u8>)
    requires
        source.len() <= u64::MAX,
    ensures
        embedded_range(exe + trailer(source)) == Some((exe.len() as int, (exe.len() + source.len()) as int)),
{
    let bytes = exe + trailer(source);
    let m = marker();
    let n = source.len() as u64;
    assert(bytes =~= exe + source + count_bytes(n) + m);
    assert(bytes.skip(bytes.len() - m.len()) =~= m);
    let count_end = bytes.len() - m.len();
    assert(bytes.subrange(count_end - 8, count_end) =~= count_bytes(n));
    lemma_count_round_trip(n);
}

/// The marker's bytes.
pub fn marker_bytes() -> (m: Vec<u8>)
    ensures
        m@ == marker(),
{
    let m = vec![
        10u8, 71u8, 85u8, 80u8, 80u8, 84u8, 89u8, 95u8, 69u8, 77u8, 66u8, 69u8, 68u8, 68u8,
        69u8, 68u8, 95u8, 80u8, 82u8, 79u8, 71u8, 82u8, 65u8, 77u8, 95u8, 86u8, 49u8, 10u8,
    ];
    assert(m@ =~= marker());
    m
}

/// Appends the trailer of `source` (its bytes, their count, the marker).
pub fn push_trailer(out: &mut Vec<u8>, source: &Vec<u8>)
    requires
        source@.len() <= u64::MAX,
    ensures
        final(out)@ == old(out)@ + trailer(source@),
{
    let mut i: usize = 0;
    while i < source.len()
        invariant
            i <= source@.len(),
            out@ == old(out)@ + source@.take(i as int),
        decreases source@.len() - i,
    {
        out.push(source[i]);
        i = i + 1;
        assert(out@ =~= old(out)@ + source@.take(i as int));
    }
    assert(source@.take(source@.len() as int) =~= source@);
    let n = source.len() as u64;
    out.push(n as u8);
    out.push((n >> 8u64) as u8);
    out.push((n >> 16u64) as u8);
    out.push((n >> 24u64) as u8);
    out.push((n >> 32u64) as u8);
    out.push((n >> 40u64) as u8);
    out.push((n >> 48u64) as u8);
    out.push((n >> 56u64) as u8);
    let m = marker_bytes();
    let mut k: usize = 0;
    let ghost before = out@;
    while k < m.len()
        invariant
            k <= m@.len(),
            m@ == marker(),
            out@ == before + m@.take(k as int),
        decreases m@.len() - k,
    {
        out.push(m[k]);
        k = k + 1;
        assert(out@ =~= before + m@.take(k as int));
    }
    assert(m@.take(m@.len() as int) =~= m@);
    assert(out@ =~= old(out)@ + trailer(source@));
}

/// Where a built executable keeps its program, as `embedded_range` says.
pub fn find_embedded(bytes: &Vec<u8>) -> (r: Option<(usize, usize)>)
    ensures
        match embedded_range(bytes@) {
            Some((a, b)) => r == Some((a as usize, b as usize)) && 0 <= a <= b <= bytes@.len(),
            None => r is None,
        },
{
    let m = marker_bytes();
    let len = bytes.len();
    if len < m.len() + 8 {
        return None;
    }
    let tail_start = len - m.len();
    let mut k: usize = 0;
    while k < m.len()
        invariant
            m@ == marker(),
            len == bytes@.len(),
            tail_start == len - m@.len(),
            k <= m@.len(),
            forall|j: int| 0 <= j < k ==> bytes@[tail_start + j] == m@[j],
        decreases m@.len() - k,
    {
        if bytes[tail_start + k] != m[k] {
            assert(bytes@.skip(tail_start as int)[k as int] != marker()[k as int]);
            return None;
        }
        k = k + 1;
    }
    assert(bytes@.skip(tail_start as int) =~= marker());
    let count_start = tail_start - 8;
    let n: u64 = (bytes[count_start] as u64) | ((bytes[count_start + 1] as u64) << 8u64) | ((
    bytes[count_start + 2] as u64) << 16u64) | ((bytes[count_start + 3] as u64) << 24u64) | ((
    bytes[count_start + 4] as u64) << 32u64) | ((bytes[count_start + 5] as u64) << 40u64) | ((
    bytes[count_start + 6] as u64) << 48u64) | ((bytes[count_start + 7] as u64) << 56u64);
    let ghost c = bytes@.subrange(count_start as int, tail_start as int);
    assert(c[0] == bytes@[count_start as int] && c[1] == bytes@[count_start + 1] && c[2]
        == bytes@[count_start + 2] && c[3] == bytes@[count_start + 3] && c[4] == bytes@[count_start
        + 4] && c[5] == bytes@[count_start + 5] && c[6] == bytes@[count_start + 6] && c[7]
        == bytes@[count_start + 7]);
    assert(n == count_of(c));
    if n <= count_start as u64 {
        let start = count_start - n as usize;
        Some((start, count_start))
    } else {
        None
    }
}

} // verus!
