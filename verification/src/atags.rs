use vstd::prelude::*;

verus! {

/// Tag of the atag that ends the list.
pub const ATAG_NONE: u32 = 0x0000_0000;

/// Tag of the atag that describes the core.
pub const ATAG_CORE: u32 = 0x5441_0001;

/// Tag of the atag that describes a region of memory.
pub const ATAG_MEM: u32 = 0x5441_0002;

/// Tag of the atag that holds the kernel's command line.
pub const ATAG_CMDLINE: u32 = 0x5441_0009;

/// Number of words in the header of an atag: its size and its tag.
pub const HEADER_WORDS: usize = 2;

/// Number of words of a core atag.
pub const CORE_WORDS: u32 = 5;

/// Number of words of a memory atag.
pub const MEM_WORDS: u32 = 4;

/// The core atag's body.
#[derive(Debug, Clone, Copy, PartialEq, Eq, Structural)]
pub struct Core {
    pub flags: u32,
    pub page_size: u32,
    pub root_dev: u32,
}

/// The memory atag's body.
#[derive(Debug, Clone, Copy, PartialEq, Eq, Structural)]
pub struct Mem {
    pub size: u32,
    pub start: u32,
}

/// An atag, decoded.
#[derive(Debug)]
pub enum Atag {
    Core(Core),
    Mem(Mem),
    /// The command line, without its terminating NUL.
    Cmd(Vec<u8>),
    Unknown(u32),
    /// The atag that ends the list.
    End,
}

/// The size in words of the atag at word `pos` of `words`.
pub open spec fn size_at(words: Seq<u32>, pos: int) -> int {
    words[pos] as int
}

/// The tag of the atag at word `pos` of `words`.
pub open spec fn tag_at(words: Seq<u32>, pos: int) -> u32 {
    words[pos + 1]
}

/// The fewest words that an atag with tag `tag` takes.
pub open spec fn min_words(tag: u32) -> int {
    if tag == ATAG_CORE {
        CORE_WORDS as int
    } else if tag == ATAG_MEM {
        MEM_WORDS as int
    } else {
        HEADER_WORDS as int
    }
}

/// Whether the atags from word `pos` of `words` on form a list: each atag
/// lies within `words` and is large enough for its tag, and the list ends
/// with an atag whose tag is `ATAG_NONE`.
pub open spec fn list_from(words: Seq<u32>, pos: int) -> bool
    decreases words.len() - pos,
{
    if 0 <= pos && pos + HEADER_WORDS <= words.len() {
        if tag_at(words, pos) == ATAG_NONE {
            true
        } else {
            &&& size_at(words, pos) >= min_words(tag_at(words, pos))
            &&& pos + size_at(words, pos) <= words.len()
            &&& list_from(words, pos + size_at(words, pos))
        }
    } else {
        false
    }
}

/// The number of atags from word `pos` on, the closing one included.
pub open spec fn count_from(words: Seq<u32>, pos: int) -> nat
    decreases words.len() - pos,
{
    if 0 <= pos && pos + HEADER_WORDS <= words.len() && tag_at(words, pos) != ATAG_NONE
        && size_at(words, pos) >= HEADER_WORDS && pos + size_at(words, pos) <= words.len() {
        1 + count_from(words, pos + size_at(words, pos))
    } else {
        1
    }
}

/// The word at which the atag after the one at `pos` starts; the atag that
/// ends the list has none after it, and the position stays.
pub open spec fn next_pos(words: Seq<u32>, pos: int) -> int {
    if tag_at(words, pos) == ATAG_NONE {
        pos
    } else {
        pos + size_at(words, pos)
    }
}

/// The word reached from `pos` after `k` moves to the next atag.
pub open spec fn pos_after(words: Seq<u32>, pos: int, k: nat) -> int
    decreases k,
{
    if k == 0 {
        pos
    } else {
        next_pos(words, pos_after(words, pos, (k - 1) as nat))
    }
}

/// Moving `k + 1` times from `pos` is moving once, then `k` times.
proof fn lemma_pos_after_shift(words: Seq<u32>, pos: int, k: nat)
    ensures
        pos_after(words, pos, k + 1) == pos_after(words, next_pos(words, pos), k),
    decreases k,
{
    if k > 0 {
        lemma_pos_after_shift(words, pos, (k - 1) as nat);
        assert(pos_after(words, pos, k + 1) == next_pos(words, pos_after(words, pos, k)));
    } else {
        assert(pos_after(words, pos, 0) == pos);
        assert(pos_after(words, pos, 1) == next_pos(words, pos_after(words, pos, 0)));
    }
}

/// Iterating over a list of atags visits `count_from` of them: the moves
/// before the last reach atags that do not end the list, and the last
/// reaches the one that does, where the iteration stays.
pub proof fn lemma_iteration_reaches_end(words: Seq<u32>, pos: int)
    requires
        list_from(words, pos),
    ensures
        count_from(words, pos) >= 1,
        forall|k: nat| k + 1 < count_from(words, pos) ==> tag_at(words, #[trigger] pos_after(words, pos, k)) != ATAG_NONE,
        tag_at(words, pos_after(words, pos, (count_from(words, pos) - 1) as nat)) == ATAG_NONE,
        next_pos(words, pos_after(words, pos, (count_from(words, pos) - 1) as nat))
            == pos_after(words, pos, (count_from(words, pos) - 1) as nat),
    decreases words.len() - pos,
{
    if tag_at(words, pos) != ATAG_NONE {
        let p2 = pos + size_at(words, pos);
        lemma_iteration_reaches_end(words, p2);
        let c2 = count_from(words, p2);
        assert(count_from(words, pos) == 1 + c2);
        assert forall|k: nat| k + 1 < count_from(words, pos) implies tag_at(words, #[trigger] pos_after(words, pos, k)) != ATAG_NONE by {
            if k > 0 {
                lemma_pos_after_shift(words, pos, (k - 1) as nat);
                assert(pos_after(words, p2, (k - 1) as nat) == pos_after(words, pos, k));
            }
        }
        lemma_pos_after_shift(words, pos, (c2 - 1) as nat);
    }
}

/// The four bytes of `w`, least significant first.
pub open spec fn word_bytes(w: u32) -> Seq<u8> {
    seq![(w % 256) as u8, ((w / 256) % 256) as u8, ((w / 65536) % 256) as u8, (w / 16777216) as u8]
}

/// The bytes of the words `words[from..to]`, in memory order.
pub open spec fn bytes_of(words: Seq<u32>, from: int, to: int) -> Seq<u8>
    decreases to - from,
{
    if to <= from {
        Seq::empty()
    } else {
        bytes_of(words, from, to - 1) + word_bytes(words[to - 1])
    }
}

/// The bytes of `s` up to its first NUL, or all of `s` if it holds none.
pub open spec fn until_nul(s: Seq<u8>) -> Seq<u8>
    decreases s.len(),
{
    if s.len() == 0 {
        s
    } else if s[0] == 0 {
        Seq::empty()
    } else {
        seq![s[0]] + until_nul(s.drop_first())
    }
}

/// Whether `atag` is the decoding of the atag at word `pos` of `words`.
pub open spec fn decodes(atag: Atag, words: Seq<u32>, pos: int) -> bool {
    let tag = tag_at(words, pos);
    if tag == ATAG_CORE {
        atag == Atag::Core(Core { flags: words[pos + 2], page_size: words[pos + 3], root_dev: words[pos + 4] })
    } else if tag == ATAG_MEM {
        atag == Atag::Mem(Mem { size: words[pos + 2], start: words[pos + 3] })
    } else if tag == ATAG_CMDLINE {
        atag matches Atag::Cmd(cmd) && cmd@ == until_nul(bytes_of(words, pos + 2, pos + size_at(words, pos)))
    } else if tag == ATAG_NONE {
        atag is End
    } else {
        atag == Atag::Unknown(tag)
    }
}

/// How an atag reads from the words at `pos`: its size in words first, then
/// its tag; tag 0x5441_0001 is the core (flags, page size, root device),
/// 0x5441_0002 memory (size, start), 0x5441_0009 the command line, 0 the end
/// of the list, and any other tag unknown. The next atag starts `size`
/// words on, except after the end of the list.
pub proof fn lemma_atag_layout(atag: Atag, words: Seq<u32>, pos: int)
    requires
        decodes(atag, words, pos),
    ensures
        words[pos + 1] == 0x5441_0001 ==> atag == Atag::Core(
            Core { flags: words[pos + 2], page_size: words[pos + 3], root_dev: words[pos + 4] },
        ),
        words[pos + 1] == 0x5441_0002 ==> atag == Atag::Mem(Mem { size: words[pos + 2], start: words[pos + 3] }),
        words[pos + 1] == 0x5441_0009 ==> atag is Cmd,
        words[pos + 1] == 0 ==> atag is End,
        words[pos + 1] != 0x5441_0001 && words[pos + 1] != 0x5441_0002 && words[pos + 1] != 0x5441_0009
            && words[pos + 1] != 0 ==> atag == Atag::Unknown(words[pos + 1]),
        words[pos + 1] != 0 ==> next_pos(words, pos) == pos + words[pos],
        words[pos + 1] == 0 ==> next_pos(words, pos) == pos,
{
}

/// A word's bytes in memory are its little-endian bytes.
pub proof fn lemma_word_bytes(w: u32)
    ensures
        word_bytes(w).len() == 4,
        w == word_bytes(w)[0] + 256 * word_bytes(w)[1] + 65536 * word_bytes(w)[2] + 16777216 * word_bytes(w)[3],
{
    assert(w == (w % 256) + 256 * ((w / 256) % 256) + 65536 * ((w / 65536) % 256) + 16777216 * (w / 16777216)) by (nonlinear_arith);
}

/// An iterator over a list of atags, held as the words of memory that the
/// firmware filled.
pub struct Atags {
    words: Vec<u32>,
    pos: usize,
}

impl Atags {
    #[verifier::type_invariant]
    spec fn is_list(&self) -> bool {
        list_from(self.words@, self.pos as int)
    }

    /// The words that hold the atags.
    pub closed spec fn spec_words(&self) -> Seq<u32> {
        self.words@
    }

    /// The word at which the current atag starts.
    pub closed spec fn spec_pos(&self) -> int {
        self.pos as int
    }

    /// How many atags remain to visit, the current one included.
    pub closed spec fn remaining(&self) -> nat {
        count_from(self.words@, self.pos as int)
    }

    /// Returns the atags held in `words`, from the first word on, or `None`
    /// if they do not form a list.
    pub fn from_words(words: Vec<u32>) -> (r: Option<Atags>)
        ensures
            r is Some <==> list_from(words@, 0),
            r matches Some(a) ==> a.spec_words() == words@ && a.spec_pos() == 0,
    {
        if check_list(&words, 0) {
            Some(Atags { words, pos: 0 })
        } else {
            None
        }
    }

    /// Returns the atag that the iterator is at.
    pub fn current(&self) -> (atag: Atag)
        ensures
            decodes(atag, self.spec_words(), self.spec_pos()),
    {
        proof {
            use_type_invariant(self);
        }
        decode(&self.words, self.pos)
    }

    /// Moves to the next atag and returns it, or returns `None` and stays
    /// where it is if the current atag ends the list.
    pub fn next(&mut self) -> (r: Option<Atag>)
        ensures
            final(self).spec_words() == old(self).spec_words(),
            final(self).spec_pos() == next_pos(old(self).spec_words(), old(self).spec_pos()),
            r is None <==> tag_at(old(self).spec_words(), old(self).spec_pos()) == ATAG_NONE,
            tag_at(old(self).spec_words(), old(self).spec_pos()) != ATAG_NONE ==> {
                &&& r matches Some(atag) && decodes(atag, final(self).spec_words(), final(self).spec_pos())
                &&& final(self).remaining() < old(self).remaining()
            },
    {
        proof {
            use_type_invariant(&*self);
        }
        assert(self.words@.len() == self.words.len());
        if self.words[self.pos + 1] == ATAG_NONE {
            return None;
        }
        let size = self.words[self.pos] as usize;
        let next = self.pos + size;
        self.pos = next;
        proof {
            use_type_invariant(&*self);
        }
        Some(decode(&self.words, next))
    }
}

impl Atags {
    /// Returns the atags from the current one to the one that ends the list,
    /// in order.
    pub fn visit_all(self) -> (all: Vec<Atag>)
        ensures
            all.len() == count_from(self.spec_words(), self.spec_pos()),
            forall|k: int| 0 <= k < all.len() ==>
                decodes(#[trigger] all@[k], self.spec_words(), pos_after(self.spec_words(), self.spec_pos(), k as nat)),
            all@.last() is End,
    {
        let mut it = self;
        proof {
            use_type_invariant(&it);
            lemma_iteration_reaches_end(it.spec_words(), it.spec_pos());
        }
        let ghost words = it.spec_words();
        let ghost start = it.spec_pos();
        let ghost total = count_from(words, start);
        let mut all: Vec<Atag> = Vec::new();
        all.push(it.current());
        proof {
            assert(pos_after(words, start, 0) == start);
        }
        loop
            invariant_except_break
                it.spec_words() == words,
                1 <= all.len() <= total,
                it.spec_pos() == pos_after(words, start, (all.len() - 1) as nat),
                it.remaining() + all.len() == total + 1,
                forall|k: int| 0 <= k < all.len() ==> decodes(#[trigger] all@[k], words, pos_after(words, start, k as nat)),
                forall|k: nat| k + 1 < total ==> tag_at(words, #[trigger] pos_after(words, start, k)) != ATAG_NONE,
                tag_at(words, pos_after(words, start, (total - 1) as nat)) == ATAG_NONE,
            ensures
                all.len() == total,
                forall|k: int| 0 <= k < all.len() ==> decodes(#[trigger] all@[k], words, pos_after(words, start, k as nat)),
                tag_at(words, pos_after(words, start, (total - 1) as nat)) == ATAG_NONE,
            decreases it.remaining(),
        {
            let ghost before = it.spec_pos();
            match it.next() {
                Some(atag) => {
                    all.push(atag);
                    proof {
                        assert(pos_after(words, start, (all.len() - 1) as nat) == next_pos(words, before));
                    }
                },
                None => {
                    break;
                },
            }
        }
        proof {
            let last = (total - 1) as int;
            assert(decodes(all@[last], words, pos_after(words, start, last as nat)));
        }
        all
    }
}

/// Returns whether the atags from word `pos` of `words` on form a list.
fn check_list(words: &Vec<u32>, pos: usize) -> (b: bool)
    ensures
        b == list_from(words@, pos as int),
{
    let n = words.len();
    let mut p = pos;
    while p <= n && n - p >= HEADER_WORDS && words[p + 1] != ATAG_NONE
        invariant
            n == words@.len(),
            list_from(words@, pos as int) == list_from(words@, p as int),
        decreases n - p,
    {
        let size = words[p] as usize;
        let tag = words[p + 1];
        let least: u32 = if tag == ATAG_CORE {
            CORE_WORDS
        } else if tag == ATAG_MEM {
            MEM_WORDS
        } else {
            2
        };
        if (size as u64) < (least as u64) || size > n - p {
            return false;
        }
        p = p + size;
    }
    p <= n && n - p >= HEADER_WORDS
}

/// Returns the bytes of the words `words[from..to]`, in memory order.
fn words_to_bytes(words: &Vec<u32>, from: usize, to: usize) -> (out: Vec<u8>)
    requires
        from <= to <= words@.len(),
    ensures
        out@ == bytes_of(words@, from as int, to as int),
{
    let mut out: Vec<u8> = Vec::new();
    let mut i = from;
    while i < to
        invariant
            from <= i <= to,
            to <= words@.len(),
            out@ == bytes_of(words@, from as int, i as int),
        decreases to - i,
    {
        let w = words[i];
        out.push((w % 256) as u8);
        out.push(((w / 256) % 256) as u8);
        out.push(((w / 65536) % 256) as u8);
        out.push((w / 16777216) as u8);
        i = i + 1;
        assert(out@ =~= bytes_of(words@, from as int, i - 1) + word_bytes(w));
    }
    out
}

/// Returns the bytes of `s` up to its first NUL.
fn take_until_nul(s: &Vec<u8>) -> (out: Vec<u8>)
    ensures
        out@ == until_nul(s@),
{
    let n = s.len();
    let mut i: usize = 0;
    while i < n && s[i] != 0
        invariant
            i <= n,
            n == s@.len(),
            forall|j: int| 0 <= j < i ==> s@[j] != 0,
        decreases n - i,
    {
        i = i + 1;
    }
    proof {
        lemma_until_nul(s@, i as int);
    }
    let mut out: Vec<u8> = Vec::new();
    let mut j: usize = 0;
    while j < i
        invariant
            j <= i <= n,
            n == s@.len(),
            out@ == s@.take(j as int),
        decreases i - j,
    {
        out.push(s[j]);
        j = j + 1;
        assert(out@ =~= s@.take(j as int));
    }
    out
}

/// `until_nul` keeps the bytes before the first NUL.
proof fn lemma_until_nul(s: Seq<u8>, i: int)
    requires
        0 <= i <= s.len(),
        forall|j: int| 0 <= j < i ==> s[j] != 0,
        i == s.len() || s[i] == 0,
    ensures
        until_nul(s) == s.take(i),
    decreases s.len(),
{
    if s.len() == 0 {
        assert(s.take(i) =~= s);
    } else if s[0] == 0 {
        assert(s.take(i) =~= Seq::<u8>::empty());
    } else {
        lemma_until_nul(s.drop_first(), i - 1);
        assert(seq![s[0]] + s.drop_first().take(i - 1) =~= s.take(i));
    }
}

/// Returns the decoding of the atag at word `pos` of `words`.
fn decode(words: &Vec<u32>, pos: usize) -> (atag: Atag)
    requires
        list_from(words@, pos as int),
    ensures
        decodes(atag, words@, pos as int),
{
    assert(words@.len() == words.len());
    let tag = words[pos + 1];
    if tag == ATAG_CORE {
        Atag::Core(Core { flags: words[pos + 2], page_size: words[pos + 3], root_dev: words[pos + 4] })
    } else if tag == ATAG_MEM {
        Atag::Mem(Mem { size: words[pos + 2], start: words[pos + 3] })
    } else if tag == ATAG_CMDLINE {
        let size = words[pos] as usize;
        let bytes = words_to_bytes(words, pos + 2, pos + size);
        Atag::Cmd(take_until_nul(&bytes))
    } else if tag == ATAG_NONE {
        Atag::End
    } else {
        Atag::Unknown(tag)
    }
}

} // verus!
