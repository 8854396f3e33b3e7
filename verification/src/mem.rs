//! The guest's memory as the host functions see it: a byte-addressed
//! 32-bit address space whose first page is never mapped (so that null is
//! never a valid address), little-endian words, and an allocator that
//! hands out fresh zeroed blocks above everything allocated so far.
use vstd::prelude::*;

verus! {

/// The size of the unmapped page at address 0.
pub const NULL_PAGE_SIZE: u32 = 4096;

/// The granularity of allocations.
pub const ALLOC_ALIGN: u32 = 16;

/// Guest memory.
pub struct Mem {
    bytes: Vec<u8>,
}

/// The little-endian 32-bit word at `a`.
pub open spec fn le_u32(s: Seq<u8>, a: int) -> u32 {
    (s[a] as int + s[a + 1] as int * 256 + s[a + 2] as int * 65536 + s[a + 3] as int
        * 16777216) as u32
}

/// `s` with the little-endian 32-bit word `v` stored at `a`.
pub open spec fn put_u32(s: Seq<u8>, a: int, v: u32) -> Seq<u8> {
    s.update(a, (v & 0xff) as u8).update(a + 1, ((v >> 8) & 0xff) as u8).update(
        a + 2,
        ((v >> 16) & 0xff) as u8,
    ).update(a + 3, ((v >> 24) & 0xff) as u8)
}

/// The `n` consecutive words at `a`.
pub open spec fn words_at(s: Seq<u8>, a: int, n: nat) -> Seq<u32> {
    Seq::new(n, |i: int| le_u32(s, a + 4 * i))
}

/// `s` with the words `w` stored one after the other from `a`.
pub open spec fn put_words(s: Seq<u8>, a: int, w: Seq<u32>) -> Seq<u8>
    decreases w.len(),
{
    if w.len() == 0 {
        s
    } else {
        put_words(put_u32(s, a, w[0]), a + 4, w.subrange(1, w.len() as int))
    }
}

/// The number of bytes that an allocation of `size` bytes takes: `size`
/// rounded up to the allocation granularity, and at least one unit.
pub open spec fn block_size(size: nat) -> nat {
    if size == 0 {
        ALLOC_ALIGN as nat
    } else {
        ((size + (ALLOC_ALIGN - 1) as nat) / ALLOC_ALIGN as nat) * ALLOC_ALIGN as nat
    }
}

/// A word stored at `a` is read back from `a`.
pub proof fn lemma_put_u32_get(s: Seq<u8>, a: int, v: u32)
    requires
        0 <= a,
        a + 4 <= s.len(),
    ensures
        le_u32(put_u32(s, a, v), a) == v,
        put_u32(s, a, v).len() == s.len(),
{
    let t = put_u32(s, a, v);
    let b0 = (v & 0xff) as u8;
    let b1 = ((v >> 8) & 0xff) as u8;
    let b2 = ((v >> 16) & 0xff) as u8;
    let b3 = ((v >> 24) & 0xff) as u8;
    assert(t[a] == b0 && t[a + 1] == b1 && t[a + 2] == b2 && t[a + 3] == b3);
    assert(b0 as int + b1 as int * 256 + b2 as int * 65536 + b3 as int * 16777216 == v as int)
        by (bit_vector)
        requires
            b0 == (v & 0xff) as u8,
            b1 == ((v >> 8) & 0xff) as u8,
            b2 == ((v >> 16) & 0xff) as u8,
            b3 == ((v >> 24) & 0xff) as u8,
    ;
}

/// Storing a word leaves the bytes outside it, and so every word that does
/// not overlap it, as they were.
pub proof fn lemma_put_u32_frame(s: Seq<u8>, a: int, v: u32, b: int)
    requires
        0 <= a,
        a + 4 <= s.len(),
        0 <= b,
        b + 4 <= s.len(),
        b + 4 <= a || a + 4 <= b,
    ensures
        le_u32(put_u32(s, a, v), b) == le_u32(s, b),
{
}

/// Storing words keeps the length, puts each word where it belongs, and
/// leaves every word outside the stored range as it was.
pub proof fn lemma_put_words(s: Seq<u8>, a: int, w: Seq<u32>)
    requires
        0 <= a,
        a + 4 * w.len() <= s.len(),
    ensures
        put_words(s, a, w).len() == s.len(),
        forall|i: int| 0 <= i < w.len() ==> #[trigger] le_u32(put_words(s, a, w), a + 4 * i) == w[i],
        forall|b: int|
            0 <= b && b + 4 <= s.len() && (b + 4 <= a || a + 4 * w.len() <= b) ==> #[trigger] le_u32(
                put_words(s, a, w),
                b,
            ) == le_u32(s, b),
        forall|k: int|
            0 <= k < s.len() && (k < a || a + 4 * w.len() <= k) ==> #[trigger] put_words(s, a, w)[k]
                == s[k],
    decreases w.len(),
{
    if w.len() > 0 {
        let s1 = put_u32(s, a, w[0]);
        let rest = w.subrange(1, w.len() as int);
        lemma_put_u32_get(s, a, w[0]);
        lemma_put_words(s1, a + 4, rest);
        let t = put_words(s, a, w);
        assert(t == put_words(s1, a + 4, rest));
        assert forall|i: int| 0 <= i < w.len() implies #[trigger] le_u32(t, a + 4 * i) == w[i] by {
            if i == 0 {
                assert(le_u32(t, a) == le_u32(s1, a));
            } else {
                assert(a + 4 * i == (a + 4) + 4 * (i - 1));
                assert(rest[i - 1] == w[i]);
            }
        }
        assert forall|b: int|
            0 <= b && b + 4 <= s.len() && (b + 4 <= a || a + 4 * w.len() <= b) implies #[trigger] le_u32(
            t,
            b,
        ) == le_u32(s, b) by {
            lemma_put_u32_frame(s, a, w[0], b);
        }
    }
}

/// Words stored at `a` and then one word stored at `b` outside them are
/// all read back.
pub proof fn lemma_words_then_word(s: Seq<u8>, a: int, w: Seq<u32>, b: int, v: u32)
    requires
        0 <= a,
        a + 4 * w.len() <= s.len(),
        0 <= b,
        b + 4 <= s.len(),
        b + 4 <= a || a + 4 * w.len() <= b,
    ensures
        words_at(put_u32(put_words(s, a, w), b, v), a, w.len()) == w,
        le_u32(put_u32(put_words(s, a, w), b, v), b) == v,
{
    lemma_put_words(s, a, w);
    let m = put_words(s, a, w);
    let t = put_u32(m, b, v);
    lemma_put_u32_get(m, b, v);
    assert forall|i: int| 0 <= i < w.len() implies #[trigger] words_at(t, a, w.len())[i] == w[i] by {
        assert(le_u32(m, a + 4 * i) == w[i]);
        lemma_put_u32_frame(m, b, v, a + 4 * i);
    }
    assert(words_at(t, a, w.len()) =~= w);
}

/// Whether the `size` bytes at `addr` of the memory `s` are mapped: above
/// the null page and below the end of what was allocated.
pub open spec fn mapped(s: Seq<u8>, addr: int, size: int) -> bool {
    NULL_PAGE_SIZE <= addr && 0 <= size && addr + size <= s.len()
}

impl View for Mem {
    type V = Seq<u8>;

    closed spec fn view(&self) -> Seq<u8> {
        self.bytes@
    }
}

impl Mem {
    /// The address space is 32 bits wide.
    #[verifier::type_invariant]
    closed spec fn fits_address_space(&self) -> bool {
        self.bytes@.len() <= u32::MAX
    }

    /// Whether the `size` bytes at `addr` are mapped.
    pub open spec fn valid(&self, addr: int, size: int) -> bool {
        mapped(self@, addr, size)
    }

    /// A fresh address space: only the unmapped null page.
    pub fn new() -> (m: Mem)
        ensures
            m@ == Seq::new(NULL_PAGE_SIZE as nat, |i: int| 0u8),
    {
        let mut bytes: Vec<u8> = Vec::new();
        let mut i: u32 = 0;
        while i < NULL_PAGE_SIZE
            invariant
                i <= NULL_PAGE_SIZE,
                bytes@ == Seq::new(i as nat, |k: int| 0u8),
            decreases NULL_PAGE_SIZE - i,
        {
            bytes.push(0);
            i = i + 1;
            assert(bytes@ =~= Seq::new(i as nat, |k: int| 0u8));
        }
        Mem { bytes }
    }


    /// The end of the allocated memory.
    pub fn len(&self) -> (n: usize)
        ensures
            n == self@.len(),
            n <= u32::MAX,
    {
        proof {
            use_type_invariant(self);
        }
        self.bytes.len()
    }

    /// Allocates a zeroed block of at least `size` bytes; the block starts
    /// where the allocated memory ended.
    pub fn allocate(&mut self, size: u32) -> (addr: u32)
        requires
            old(self)@.len() + block_size(size as nat) <= u32::MAX,
        ensures
            addr == old(self)@.len(),
            final(self)@ == old(self)@ + Seq::new(block_size(size as nat), |i: int| 0u8),
    {
        proof {
            use_type_invariant(&*self);
        }
        let ghost start = self@;
        let addr = self.bytes.len() as u32;
        let n: u32 = if size == 0 {
            ALLOC_ALIGN
        } else {
            ((size as u64 + (ALLOC_ALIGN - 1) as u64) / ALLOC_ALIGN as u64 * ALLOC_ALIGN as u64) as u32
        };
        assert(n as nat == block_size(size as nat));
        let mut bytes: Vec<u8> = Vec::new();
        std::mem::swap(&mut bytes, &mut self.bytes);
        let mut i: u32 = 0;
        while i < n
            invariant
                i <= n,
                bytes@ == start + Seq::new(i as nat, |k: int| 0u8),
            decreases n - i,
        {
            bytes.push(0);
            i = i + 1;
            assert(bytes@ =~= start + Seq::new(i as nat, |k: int| 0u8));
        }
        self.bytes = bytes;
        addr
    }

    /// The little-endian word at `addr`.
    pub fn read_u32(&self, addr: u32) -> (v: u32)
        requires
            self.valid(addr as int, 4),
        ensures
            v == le_u32(self@, addr as int),
    {
        proof {
            use_type_invariant(self);
        }
        let a = addr as usize;
        self.bytes[a] as u32 + self.bytes[a + 1] as u32 * 256 + self.bytes[a + 2] as u32 * 65536
            + self.bytes[a + 3] as u32 * 16777216
    }

    /// Stores `v` as a little-endian word at `addr`.
    pub fn write_u32(&mut self, addr: u32, v: u32)
        requires
            old(self).valid(addr as int, 4),
        ensures
            final(self)@ == put_u32(old(self)@, addr as int, v),
    {
        proof {
            use_type_invariant(&*self);
        }
        let a = addr as usize;
        let mut bytes: Vec<u8> = Vec::new();
        std::mem::swap(&mut bytes, &mut self.bytes);
        bytes.set(a, (v & 0xff) as u8);
        bytes.set(a + 1, ((v >> 8) & 0xff) as u8);
        bytes.set(a + 2, ((v >> 16) & 0xff) as u8);
        bytes.set(a + 3, ((v >> 24) & 0xff) as u8);
        self.bytes = bytes;
    }

    /// The `n` consecutive words at `addr`.
    pub fn read_words(&self, addr: u32, n: u32) -> (w: Vec<u32>)
        requires
            self.valid(addr as int, 4 * n as int),
        ensures
            w@ == words_at(self@, addr as int, n as nat),
    {
        proof {
            use_type_invariant(self);
        }
        let mut w: Vec<u32> = Vec::new();
        let mut i: u32 = 0;
        while i < n
            invariant
                i <= n,
                self@.len() <= u32::MAX,
                self.valid(addr as int, 4 * n as int),
                w@ == words_at(self@, addr as int, i as nat),
            decreases n - i,
        {
            w.push(self.read_u32(addr + 4 * i));
            i = i + 1;
            assert(w@ =~= words_at(self@, addr as int, i as nat));
        }
        w
    }

    /// The `n` bytes at `addr`.
    pub fn read_bytes(&self, addr: u32, n: u32) -> (b: Vec<u8>)
        requires
            self.valid(addr as int, n as int),
        ensures
            b@ == self@.subrange(addr as int, addr + n),
    {
        proof {
            use_type_invariant(self);
        }
        let mut b: Vec<u8> = Vec::new();
        let mut i: u32 = 0;
        while i < n
            invariant
                i <= n,
                self@.len() <= u32::MAX,
                self.valid(addr as int, n as int),
                b@ == self@.subrange(addr as int, addr + i),
            decreases n - i,
        {
            b.push(self.bytes[(addr + i) as usize]);
            i = i + 1;
            assert(b@ =~= self@.subrange(addr as int, addr + i));
        }
        b
    }

    /// Stores the words `w` one after the other from `addr`.
    pub fn write_words(&mut self, addr: u32, w: &[u32])
        requires
            old(self).valid(addr as int, 4 * w@.len() as int),
        ensures
            final(self)@ == put_words(old(self)@, addr as int, w@),
            final(self)@.len() == old(self)@.len(),
    {
        proof {
            use_type_invariant(&*self);
        }
        let ghost start = self@;
        let mut i: usize = 0;
        assert(w@.subrange(0, w@.len() as int) =~= w@);
        while i < w.len()
            invariant
                i <= w@.len(),
                start.len() <= u32::MAX,
                NULL_PAGE_SIZE <= addr,
                addr + 4 * w@.len() <= start.len(),
                put_words(self@, addr + 4 * i, w@.subrange(i as int, w@.len() as int)) == put_words(
                    start,
                    addr as int,
                    w@,
                ),
                self@.len() == start.len(),
            decreases w@.len() - i,
        {
            let ghost before = self@;
            let ghost rest = w@.subrange(i as int, w@.len() as int);
            assert(rest.subrange(1, rest.len() as int) =~= w@.subrange(i as int + 1, w@.len() as int));
            self.write_u32(addr + 4 * (i as u32), w[i]);
            i = i + 1;
        }
        assert(w@.subrange(w@.len() as int, w@.len() as int) =~= Seq::<u32>::empty());
    }
}

} // verus!
