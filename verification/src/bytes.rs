use vstd::prelude::*;

verus! {

/// The unsigned integer stored little-endian in the two bytes of `b` at `off`.
pub open spec fn le_u16(b: Seq<u8>, off: int) -> int {
    b[off] + 256 * b[off + 1]
}

/// The unsigned integer stored little-endian in the four bytes of `b` at `off`.
pub open spec fn le_u32(b: Seq<u8>, off: int) -> int {
    le_u16(b, off) + 65536 * le_u16(b, off + 2)
}

/// Reads the little-endian `u16` at byte offset `off` of `buf`.
pub fn read_u16_le(buf: &[u8], off: usize) -> (v: u16)
    requires
        off + 2 <= buf@.len(),
    ensures
        v == le_u16(buf@, off as int),
{
    buf[off] as u16 + 256 * (buf[off + 1] as u16)
}

/// Reads the little-endian `u32` at byte offset `off` of `buf`.
pub fn read_u32_le(buf: &[u8], off: usize) -> (v: u32)
    requires
        off + 4 <= buf@.len(),
    ensures
        v == le_u32(buf@, off as int),
{
    assert(buf@.len() == buf.len());
    let lo = read_u16_le(buf, off);
    let hi = read_u16_le(buf, off + 2);
    lo as u32 + 65536 * (hi as u32)
}

/// Copies `buf[start..start + len]` into a new vector.
pub fn copy_range(buf: &[u8], start: usize, len: usize) -> (out: Vec<u8>)
    requires
        start + len <= buf@.len(),
    ensures
        out@ == buf@.subrange(start as int, start + len),
{
    let n = buf.len();
    let mut out: Vec<u8> = Vec::new();
    let mut i: usize = 0;
    while i < len
        invariant
            i <= len,
            start + len <= buf@.len(),
            n == buf@.len(),
            out@ == buf@.subrange(start as int, start + i),
        decreases len - i,
    {
        out.push(buf[start + i]);
        i = i + 1;
    }
    out
}

/// Appends the bytes of `src` to `out`.
pub fn append_bytes(out: &mut Vec<u8>, src: &[u8])
    ensures
        final(out)@ == old(out)@ + src@,
{
    let n = src.len();
    let mut i: usize = 0;
    while i < n
        invariant
            n == src@.len(),
            i <= n,
            out@ == old(out)@ + src@.take(i as int),
        decreases n - i,
    {
        out.push(src[i]);
        i = i + 1;
        assert(src@.take(i as int) =~= src@.take(i - 1).push(src@[i - 1]));
    }
    assert(src@.take(n as int) =~= src@);
}

/// Copies `src[from..from + k]` over `buf[at..at + k]`.
pub fn copy_into(buf: &mut [u8], at: usize, src: &[u8], from: usize, k: usize)
    requires
        at + k <= old(buf)@.len(),
        from + k <= src@.len(),
    ensures
        final(buf)@.len() == old(buf)@.len(),
        final(buf)@.subrange(0, at as int) == old(buf)@.subrange(0, at as int),
        final(buf)@.subrange(at as int, at + k) == src@.subrange(from as int, from + k),
        final(buf)@.subrange(at + k, old(buf)@.len() as int) == old(buf)@.subrange(at + k, old(buf)@.len() as int),
{
    let n = buf.len();
    let m = src.len();
    let mut t: usize = 0;
    while t < k
        invariant
            t <= k,
            at + k <= n,
            from + k <= m,
            n == buf@.len(),
            m == src@.len(),
            buf@.len() == old(buf)@.len(),
            forall|i: int| 0 <= i < at ==> buf@[i] == old(buf)@[i],
            forall|i: int| at <= i < at + t ==> buf@[i] == src@[from + i - at],
            forall|i: int| at + k <= i < n ==> buf@[i] == old(buf)@[i],
        decreases k - t,
    {
        buf[at + t] = src[from + t];
        t = t + 1;
    }
    assert(buf@.subrange(0, at as int) =~= old(buf)@.subrange(0, at as int));
    assert(buf@.subrange(at as int, at + k) =~= src@.subrange(from as int, from + k));
    assert(buf@.subrange(at + k, n as int) =~= old(buf)@.subrange(at + k, n as int));
}

/// The concatenation of the `count` pieces `piece(0)`, ..., `piece(count - 1)`.
pub open spec fn concat(piece: spec_fn(int) -> Seq<u8>, count: nat) -> Seq<u8>
    decreases count,
{
    if count == 0 {
        Seq::empty()
    } else {
        concat(piece, (count - 1) as nat) + piece(count - 1)
    }
}

/// Whether each of the first `count` pieces is `size` bytes long.
pub open spec fn uniform_pieces(piece: spec_fn(int) -> Seq<u8>, count: nat, size: nat) -> bool {
    forall|j: int| 0 <= j < count ==> (#[trigger] piece(j)).len() == size
}

/// Concatenations of pieces that agree are equal.
pub proof fn lemma_concat_congruent(f: spec_fn(int) -> Seq<u8>, g: spec_fn(int) -> Seq<u8>, count: nat)
    requires
        forall|j: int| 0 <= j < count ==> #[trigger] f(j) == g(j),
    ensures
        concat(f, count) == concat(g, count),
    decreases count,
{
    if count > 0 {
        lemma_concat_congruent(f, g, (count - 1) as nat);
        assert(f(count - 1) == g(count - 1));
    }
}

/// Concatenating `count` pieces of `size` bytes gives `count * size` bytes.
pub proof fn lemma_concat_len(piece: spec_fn(int) -> Seq<u8>, count: nat, size: nat)
    requires
        uniform_pieces(piece, count, size),
    ensures
        concat(piece, count).len() == count * size,
    decreases count,
{
    if count > 0 {
        lemma_concat_len(piece, (count - 1) as nat, size);
        assert(piece(count - 1).len() == size);
        assert(((count - 1) as nat) * size + size == count * size) by (nonlinear_arith)
            requires
                count > 0,
        ;
        assert(concat(piece, count) == concat(piece, (count - 1) as nat) + piece(count - 1));
    } else {
        assert(count * size == 0) by (nonlinear_arith)
            requires
                count == 0,
        ;
    }
}

/// Byte `r` of piece `j` stands at `j * size + r` in the concatenation.
pub proof fn lemma_concat_index(piece: spec_fn(int) -> Seq<u8>, count: nat, size: nat, j: int, r: int)
    requires
        uniform_pieces(piece, count, size),
        0 <= j < count,
        0 <= r < size,
    ensures
        0 <= j * size + r < count * size,
        concat(piece, count)[j * size + r] == piece(j)[r],
    decreases count,
{
    lemma_concat_len(piece, count, size);
    assert(0 <= j * size + r < count * size) by (nonlinear_arith)
        requires
            0 <= j < count,
            0 <= r < size,
    ;
    let prev = (count - 1) as nat;
    lemma_concat_len(piece, prev, size);
    if j < prev {
        lemma_concat_index(piece, prev, size, j, r);
    } else {
        assert(j * size == prev * size);
    }
}

/// A run of bytes within one piece is a run of the concatenation.
pub proof fn lemma_concat_subrange(
    piece: spec_fn(int) -> Seq<u8>,
    count: nat,
    size: nat,
    j: int,
    r: int,
    k: int,
)
    requires
        uniform_pieces(piece, count, size),
        0 <= j < count,
        0 <= r,
        0 <= k,
        r + k <= size,
    ensures
        j * size + r + k <= count * size,
        concat(piece, count).subrange(j * size + r, j * size + r + k) == piece(j).subrange(r, r + k),
{
    lemma_concat_len(piece, count, size);
    assert(j * size + size <= count * size) by (nonlinear_arith)
        requires
            0 <= j < count,
    ;
    assert forall|t: int| 0 <= t < k implies #[trigger] concat(piece, count).subrange(j * size + r, j * size + r + k)[t]
        == piece(j).subrange(r, r + k)[t] by {
        lemma_concat_index(piece, count, size, j, r + t);
    }
    assert(concat(piece, count).subrange(j * size + r, j * size + r + k) =~= piece(j).subrange(r, r + k));
}

} // verus!
