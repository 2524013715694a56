//! The guest address space: a sparse two-level table of 4 KiB pages.
//!
//! A `MemoryMap` is modelled by its view, a map from each backed guest
//! address to the byte stored there. Pages come into being zeroed and whole;
//! every accessor reads and writes little-endian, at any alignment, across
//! page boundaries where it must.

use crate::bits::{
    byte_of, extract_u16_from_page, extract_u32_from_page, extract_u64_from_page, le16, le32, le64,
    lemma_join_16, lemma_join_32, lemma_join_64,
};
use vstd::prelude::*;

verus! {

/// One past the highest guest address: the space has 39 bits.
pub const ADDRESS_SPACE: u64 = 0x80_0000_0000;

/// Size of the stack region in bytes.
pub const STACK_SIZE: u64 = 0x10_0000;

/// Lowest address of the stack region, which ends at `ADDRESS_SPACE`.
pub const STACK_BOTTOM: u64 = 0x7f_fff0_0000;

/// Where a guest address lies in a flat backing store that holds the low
/// region `[0, 2^38)` as it is and the stack region from offset 0: nothing
/// for an address in neither region.
pub open spec fn flat_offset_of(a: u64) -> Option<u64> {
    if a < 0x40_0000_0000 {
        Some(a)
    } else if STACK_BOTTOM <= a < ADDRESS_SPACE {
        Some((a - STACK_BOTTOM) as u64)
    } else {
        None
    }
}

/// Translates a guest address to its offset in a flat backing store.
pub fn flat_offset(addr: u64) -> (r: Option<u64>)
    ensures
        r == flat_offset_of(addr),
        r matches Some(off) ==> (if addr < STACK_BOTTOM {
            off == addr
        } else {
            off < STACK_SIZE
        }),
{
    if addr < 0x40_0000_0000 {
        Some(addr)
    } else if addr >= STACK_BOTTOM && addr < ADDRESS_SPACE {
        Some(addr - STACK_BOTTOM)
    } else {
        None
    }
}

/// Every address in `[a, a + n)` is backed.
pub open spec fn backed(m: Map<int, u8>, a: int, n: int) -> bool {
    forall|b: int| a <= b < a + n ==> #[trigger] m.dom().contains(b)
}

/// The byte at `a`, if it is backed.
pub open spec fn read_u8(m: Map<int, u8>, a: int) -> Option<u8> {
    if m.dom().contains(a) {
        Some(m[a])
    } else {
        None
    }
}

/// The little-endian half-word at `a`, if both its bytes are backed.
pub open spec fn read_u16(m: Map<int, u8>, a: int) -> Option<u16> {
    if backed(m, a, 2) {
        Some(le16(m[a], m[a + 1]))
    } else {
        None
    }
}

/// The little-endian word at `a`, if all four bytes are backed.
pub open spec fn read_u32(m: Map<int, u8>, a: int) -> Option<u32> {
    if backed(m, a, 4) {
        Some(le32(m[a], m[a + 1], m[a + 2], m[a + 3]))
    } else {
        None
    }
}

/// The little-endian double word at `a`, if all eight bytes are backed.
pub open spec fn read_u64(m: Map<int, u8>, a: int) -> Option<u64> {
    if backed(m, a, 8) {
        Some(le64(m[a], m[a + 1], m[a + 2], m[a + 3], m[a + 4], m[a + 5], m[a + 6], m[a + 7]))
    } else {
        None
    }
}

/// Memory `m` after the low `n` bytes of `v` are stored at `a`, least
/// significant byte first. The set of backed addresses stays as it is.
pub open spec fn store(m: Map<int, u8>, a: int, v: u64, n: int) -> Map<int, u8> {
    Map::new(
        |b: int| m.dom().contains(b),
        |b: int|
            if a <= b < a + n {
                byte_of(v, (b - a) as nat)
            } else {
                m[b]
            },
    )
}

/// Memory `m` with the pages numbered `first` to `last` backed as well; a
/// page that was not backed before holds zeros.
pub open spec fn with_pages(m: Map<int, u8>, first: int, last: int) -> Map<int, u8> {
    Map::new(
        |b: int| m.dom().contains(b) || (0 <= b && first <= b / 4096 <= last),
        |b: int|
            if m.dom().contains(b) {
                m[b]
            } else {
                0u8
            },
    )
}

/// The numbers of the pages that memory `m` backs.
pub open spec fn page_set(m: Map<int, u8>) -> Set<int> {
    Set::new(|pn: int| 0 <= pn && m.dom().contains(pn * 4096))
}

/// Number of the page that holds `a`.
pub open spec fn first_page(a: int) -> int {
    a / 4096
}

/// Number of the last page that `[a, a + n)` touches; for an empty range,
/// one less than `first_page(a)`.
pub open spec fn last_page(a: int, n: int) -> int {
    if n <= 0 {
        a / 4096 - 1
    } else {
        (a + n - 1) / 4096
    }
}

/// None of the pages numbered `first` to `last` is backed.
pub open spec fn pages_free(m: Map<int, u8>, first: int, last: int) -> bool {
    forall|b: int| 0 <= b && first <= b / 4096 <= last ==> !#[trigger] m.dom().contains(b)
}

/// Memory `m` with the bytes `data` laid over it from `a` onwards. The set
/// of backed addresses stays as it is.
pub open spec fn overlay(m: Map<int, u8>, a: int, data: Seq<u8>) -> Map<int, u8> {
    Map::new(
        |b: int| m.dom().contains(b),
        |b: int|
            if a <= b < a + data.len() {
                data[b - a]
            } else {
                m[b]
            },
    )
}

/// The bytes of a value, joined little-endian, are the value.
proof fn lemma_bytes_recompose(v: u64)
    by (bit_vector)
    ensures
        le64(
            byte_of(v, 0),
            byte_of(v, 1),
            byte_of(v, 2),
            byte_of(v, 3),
            byte_of(v, 4),
            byte_of(v, 5),
            byte_of(v, 6),
            byte_of(v, 7),
        ) == v,
        v <= 0xffff_ffff ==> le32(byte_of(v, 0), byte_of(v, 1), byte_of(v, 2), byte_of(v, 3)) == v,
        v <= 0xffff ==> le16(byte_of(v, 0), byte_of(v, 1)) == v,
        v <= 0xff ==> byte_of(v, 0) == v,
{
}

/// A byte that was stored is the byte read back.
pub proof fn store_then_read_u8(m: Map<int, u8>, a: int, v: u8)
    requires
        m.dom().contains(a),
    ensures
        read_u8(m.insert(a, v), a) == Some(v),
        m.insert(a, v) == store(m, a, v as u64, 1),
{
    lemma_bytes_recompose(v as u64);
    assert(m.insert(a, v) =~= store(m, a, v as u64, 1));
}

/// A half-word that was stored is the half-word read back, at any alignment.
pub proof fn store_then_read_u16(m: Map<int, u8>, a: int, v: u16)
    requires
        backed(m, a, 2),
    ensures
        read_u16(store(m, a, v as u64, 2), a) == Some(v),
{
    lemma_bytes_recompose(v as u64);
    let m2 = store(m, a, v as u64, 2);
    assert(backed(m2, a, 2));
    assert(m.dom().contains(a) && m.dom().contains(a + 1));
}

/// A word that was stored is the word read back, at any alignment.
pub proof fn store_then_read_u32(m: Map<int, u8>, a: int, v: u32)
    requires
        backed(m, a, 4),
    ensures
        read_u32(store(m, a, v as u64, 4), a) == Some(v),
{
    lemma_bytes_recompose(v as u64);
    let m2 = store(m, a, v as u64, 4);
    assert(backed(m2, a, 4));
    assert(m.dom().contains(a) && m.dom().contains(a + 1) && m.dom().contains(a + 2)
        && m.dom().contains(a + 3));
}

/// A double word that was stored is the double word read back, at any
/// alignment.
pub proof fn store_then_read_u64(m: Map<int, u8>, a: int, v: u64)
    requires
        backed(m, a, 8),
    ensures
        read_u64(store(m, a, v, 8), a) == Some(v),
{
    lemma_bytes_recompose(v);
    let m2 = store(m, a, v, 8);
    assert(backed(m2, a, 8));
    assert(m.dom().contains(a) && m.dom().contains(a + 1) && m.dom().contains(a + 2)
        && m.dom().contains(a + 3) && m.dom().contains(a + 4) && m.dom().contains(a + 5)
        && m.dom().contains(a + 6) && m.dom().contains(a + 7));
}

/// After `n` bytes of `v` are stored at `a`, the byte at `a + i` is byte `i`
/// of `v`: memory holds the little-endian decomposition of `v`.
pub proof fn store_is_little_endian(m: Map<int, u8>, a: int, v: u64, n: int, i: int)
    requires
        backed(m, a, n),
        0 <= i < n,
    ensures
        read_u8(store(m, a, v, n), a + i) == Some(byte_of(v, i as nat)),
{
    assert(m.dom().contains(a + i));
}

/// A store leaves every byte outside `[a, a + n)` as it was.
pub proof fn store_keeps_other_bytes(m: Map<int, u8>, a: int, v: u64, n: int, b: int)
    requires
        b < a || b >= a + n,
    ensures
        read_u8(store(m, a, v, n), b) == read_u8(m, b),
{
}

/// Memory that backs nothing outside the address space has a finite number of
/// pages, 2^27 at most.
pub proof fn lemma_page_set_bounded(m: Map<int, u8>)
    requires
        forall|a: int| m.dom().contains(a) ==> 0 <= a < ADDRESS_SPACE,
    ensures
        page_set(m).finite(),
        page_set(m).len() <= 0x800_0000,
{
    vstd::set_lib::lemma_int_range(0, 0x800_0000);
    assert(page_set(m).subset_of(vstd::set_lib::set_int_range(0, 0x800_0000)));
    vstd::set_lib::lemma_len_subset(page_set(m), vstd::set_lib::set_int_range(0, 0x800_0000));
}

/// A second-level table: 4096 slots, each with a page or empty.
pub struct L2Table {
    ents: Vec<Option<Box<[u8; 4096]>>>,
}

/// The guest address space.
pub struct MemoryMap {
    l1: Vec<Option<L2Table>>,
    total_pages_alloc: usize,
}

/// The shifts and masks that walk the table are division and remainder.
proof fn lemma_split_address(addr: u64)
    by (bit_vector)
    requires
        addr < 0x80_0000_0000,
    ensures
        (addr >> 24) == addr / 0x100_0000,
        (addr >> 24) < 32768,
        ((addr >> 12) & 0xfff) == (addr / 0x1000) % 0x1000,
        (addr & 0xfff) == addr % 0x1000,
        (addr >> 12) == addr / 0x1000,
        addr & 1 == 0 <==> addr % 2 == 0,
        addr & 3 == 0 <==> addr % 4 == 0,
        addr & 7 == 0 <==> addr % 8 == 0,
{
}

/// A second-level table with every slot empty.
fn empty_l2() -> (t: L2Table)
    ensures
        t.ents.len() == 4096,
        forall|i: int| 0 <= i < 4096 ==> t.ents[i] is None,
{
    let mut ents: Vec<Option<Box<[u8; 4096]>>> = Vec::new();
    let mut i: usize = 0;
    while i < 4096
        invariant
            i <= 4096,
            ents.len() == i,
            forall|j: int| 0 <= j < i ==> ents[j] is None,
        decreases 4096 - i,
    {
        ents.push(None);
        i += 1;
    }
    L2Table { ents }
}

impl MemoryMap {
    /// The table has its full shape, every slot of both levels exists, and
    /// the count of pages is the number of pages that are backed.
    pub closed spec fn wf(&self) -> bool {
        &&& self.l1.len() == 32768
        &&& forall|i: int|
            0 <= i < 32768 ==> (#[trigger] self.l1[i] matches Some(t) ==> t.ents.len() == 4096)
        &&& self.counted()
    }

    /// The count of pages is the number of pages that are backed.
    #[verifier::opaque]
    closed spec fn counted(&self) -> bool {
        self.total_pages_alloc == page_set(self@).len()
    }

    closed spec fn page_at(&self, pn: int) -> Option<Seq<u8>> {
        match self.l1[pn / 4096] {
            Some(t) => match t.ents[pn % 4096] {
                Some(p) => Some(p@),
                None => None,
            },
            None => None,
        }
    }

    /// The backed guest addresses, each with the byte it holds.
    pub closed spec fn view(&self) -> Map<int, u8> {
        Map::new(
            |a: int| 0 <= a < 0x80_0000_0000 && self.page_at(a / 4096) is Some,
            |a: int| self.page_at(a / 4096).unwrap()[a % 4096],
        )
    }

    /// An address space in which nothing is backed.
    pub fn new() -> (m: MemoryMap)
        ensures
            m.wf(),
            m@ == Map::<int, u8>::empty(),
    {
        let mut l1: Vec<Option<L2Table>> = Vec::new();
        let mut i: usize = 0;
        while i < 32768
            invariant
                i <= 32768,
                l1.len() == i,
                forall|j: int| 0 <= j < i ==> l1[j] is None,
            decreases 32768 - i,
        {
            l1.push(None);
            i += 1;
        }
        let m = MemoryMap { l1, total_pages_alloc: 0 };
        proof {
            reveal(MemoryMap::counted);
            assert(m@ =~= Map::<int, u8>::empty());
            assert(page_set(m@) =~= Set::<int>::empty());
        }
        m
    }

    /// How many pages are backed.
    pub fn total_pages_alloc(&self) -> (n: usize)
        requires
            self.wf(),
        ensures
            n == page_set(self@).len(),
    {
        proof {
            reveal(MemoryMap::counted);
        }
        self.total_pages_alloc
    }

    /// The page that holds `addr`, if it is backed.
    fn page_of(&self, addr: u64) -> (r: Option<&[u8; 4096]>)
        requires
            self.wf(),
            addr < ADDRESS_SPACE,
        ensures
            match r {
                Some(p) => self.page_at(addr as int / 4096) == Some(p@),
                None => self.page_at(addr as int / 4096) is None,
            },
    {
        proof {
            lemma_split_address(addr);
        }
        let l1i: usize = (addr >> 24) as usize;
        let l2i: usize = ((addr >> 12) & 0xfff) as usize;
        match &self.l1[l1i] {
            Some(l2) => match &l2.ents[l2i] {
                Some(page) => Some(&**page),
                None => None,
            },
            None => None,
        }
    }

    /// Backs the page that holds `page`, filled with zeros, unless it is
    /// backed already. Says whether the page is new.
    pub fn allocate_known_page(&mut self, page: u64) -> (fresh: bool)
        requires
            old(self).wf(),
            page < ADDRESS_SPACE,
        ensures
            final(self).wf(),
            fresh == !old(self)@.dom().contains(page as int),
            final(self)@ == with_pages(old(self)@, page as int / 4096, page as int / 4096),
    {
        proof {
            lemma_split_address(page);
        }
        let l1i: usize = (page >> 24) as usize;
        let l2i: usize = ((page >> 12) & 0xfff) as usize;
        proof {
            reveal(MemoryMap::counted);
        }
        if self.l1[l1i].is_none() {
            let t = empty_l2();
            self.l1[l1i] = Some(t);
            assert(self@ =~= old(self)@);
        }
        let fresh: bool = match &mut self.l1[l1i] {
            Some(l2) => {
                if l2.ents[l2i].is_none() {
                    l2.ents[l2i] = Some(Box::new([0u8; 4096]));
                    true
                } else {
                    false
                }
            },
            None => false,
        };
        proof {
            let pn = page as int / 4096;
            assert(self@ =~= with_pages(old(self)@, pn, pn));
            if fresh {
                assert(page_set(self@) =~= page_set(old(self)@).insert(pn));
                lemma_page_set_bounded(old(self)@);
                lemma_page_set_bounded(self@);
            } else {
                assert(self@ =~= old(self)@);
            }
        }
        let ghost grown = self@;
        if fresh {
            self.total_pages_alloc += 1;
            assert(self@ =~= grown);
        }
        fresh
    }

    /// Writes one byte. Fails, changing nothing, where `addr` is not backed.
    pub fn writebyte(&mut self, addr: u64, byte: u8) -> (ok: bool)
        requires
            old(self).wf(),
        ensures
            final(self).wf(),
            ok == old(self)@.dom().contains(addr as int),
            final(self)@ == if ok {
                old(self)@.insert(addr as int, byte)
            } else {
                old(self)@
            },
    {
        if addr >= ADDRESS_SPACE {
            return false;
        }
        proof {
            lemma_split_address(addr);
        }
        let l1i: usize = (addr >> 24) as usize;
        let l2i: usize = ((addr >> 12) & 0xfff) as usize;
        let off: usize = (addr & 0xfff) as usize;
        let ok: bool = match &mut self.l1[l1i] {
            Some(l2) => match &mut l2.ents[l2i] {
                Some(page) => {
                    page[off] = byte;
                    true
                },
                None => false,
            },
            None => false,
        };
        proof {
            if ok {
                assert(self@ =~= old(self)@.insert(addr as int, byte));
            } else {
                assert(self@ =~= old(self)@);
            }
            reveal(MemoryMap::counted);
            assert(page_set(self@) =~= page_set(old(self)@));
        }
        ok
    }

    /// Reads one byte, or nothing where `addr` is not backed.
    pub fn readbyte(&self, addr: u64) -> (r: Option<u8>)
        requires
            self.wf(),
        ensures
            r == read_u8(self@, addr as int),
    {
        if addr >= ADDRESS_SPACE {
            return None;
        }
        proof {
            lemma_split_address(addr);
        }
        match self.page_of(addr) {
            Some(page) => Some(page[(addr & 0xfff) as usize]),
            None => None,
        }
    }

    /// Reads a little-endian half-word, or nothing where a byte of it is not
    /// backed.
    pub fn readhword(&self, addr: u64) -> (r: Option<u16>)
        requires
            self.wf(),
        ensures
            r == read_u16(self@, addr as int),
    {
        if addr >= ADDRESS_SPACE - 1 {
            assert(!self@.dom().contains(addr as int + 1));
            return None;
        }
        proof {
            lemma_split_address(addr);
        }
        if addr & 1 == 0 {
            match self.page_of(addr) {
                Some(page) => Some(extract_u16_from_page(page, (addr & 0xfff) as usize)),
                None => {
                    assert(!self@.dom().contains(addr as int));
                    None
                },
            }
        } else {
            let lo: u8 = match self.readbyte(addr) {
                Some(b) => b,
                None => {
                    return None;
                },
            };
            let hi: u8 = match self.readbyte(addr + 1) {
                Some(b) => b,
                None => {
                    assert(!self@.dom().contains(addr as int + 1));
                    return None;
                },
            };
            proof {
                lemma_join_16(lo, hi);
            }
            Some((lo as u16) | ((hi as u16) << 8))
        }
    }

    /// Reads a little-endian word, or nothing where a byte of it is not
    /// backed.
    pub fn readword(&self, addr: u64) -> (r: Option<u32>)
        requires
            self.wf(),
        ensures
            r == read_u32(self@, addr as int),
    {
        if addr >= ADDRESS_SPACE - 3 {
            assert(!self@.dom().contains(addr as int + 3));
            return None;
        }
        proof {
            lemma_split_address(addr);
        }
        if addr & 3 == 0 {
            match self.page_of(addr) {
                Some(page) => Some(extract_u32_from_page(page, (addr & 0xfff) as usize)),
                None => {
                    assert(!self@.dom().contains(addr as int));
                    None
                },
            }
        } else {
            let lo: u16 = match self.readhword(addr) {
                Some(h) => h,
                None => {
                    return None;
                },
            };
            let hi: u16 = match self.readhword(addr + 2) {
                Some(h) => h,
                None => {
                    return None;
                },
            };
            proof {
                lemma_join_32(lo, hi);
            }
            Some((lo as u32) | ((hi as u32) << 16))
        }
    }

    /// Reads a little-endian double word, or nothing where a byte of it is
    /// not backed.
    pub fn readdword(&self, addr: u64) -> (r: Option<u64>)
        requires
            self.wf(),
        ensures
            r == read_u64(self@, addr as int),
    {
        if addr >= ADDRESS_SPACE - 7 {
            assert(!self@.dom().contains(addr as int + 7));
            return None;
        }
        proof {
            lemma_split_address(addr);
        }
        if addr & 7 == 0 {
            match self.page_of(addr) {
                Some(page) => Some(extract_u64_from_page(page, (addr & 0xfff) as usize)),
                None => {
                    assert(!self@.dom().contains(addr as int));
                    None
                },
            }
        } else {
            let lo: u32 = match self.readword(addr) {
                Some(w) => w,
                None => {
                    return None;
                },
            };
            let hi: u32 = match self.readword(addr + 4) {
                Some(w) => w,
                None => {
                    return None;
                },
            };
            proof {
                lemma_join_64(lo, hi);
            }
            Some((lo as u64) | ((hi as u64) << 32))
        }
    }

    /// Stores the low `n` bytes of `v` at `addr`, least significant first, or
    /// nothing at all where one of those addresses is not backed.
    fn store_bytes(&mut self, addr: u64, v: u64, n: u64) -> (ok: bool)
        requires
            old(self).wf(),
            1 <= n <= 8,
        ensures
            final(self).wf(),
            ok == backed(old(self)@, addr as int, n as int),
            final(self)@ == if ok {
                store(old(self)@, addr as int, v, n as int)
            } else {
                old(self)@
            },
    {
        if !self.range_is_backed(addr, n) {
            return false;
        }
        proof {
            assert(self@.dom().contains(addr + n - 1));
            self.lemma_whole_pages(addr + n - 1, addr + n - 1);
        }
        let mut i: u64 = 0;
        while i < n
            invariant
                i <= n <= 8,
                self.wf(),
                addr + n <= ADDRESS_SPACE,
                backed(old(self)@, addr as int, n as int),
                self@ == store(old(self)@, addr as int, v, i as int),
            decreases n - i,
        {
            let b: u8 = ((v >> (8 * i)) & 0xff) as u8;
            self.writebyte(addr + i, b);
            assert(self@ =~= store(old(self)@, addr as int, v, i + 1));
            i += 1;
        }
        true
    }

    /// Stores the low `n` bytes of `v` at `addr`, all in one page, with one
    /// walk of the table. `n` is 2, 4 or 8.
    fn store_in_page(&mut self, addr: u64, v: u64, n: usize) -> (ok: bool)
        requires
            old(self).wf(),
            addr < ADDRESS_SPACE,
            n == 2 || n == 4 || n == 8,
            addr % 4096 + n <= 4096,
        ensures
            final(self).wf(),
            ok == backed(old(self)@, addr as int, n as int),
            final(self)@ == if ok {
                store(old(self)@, addr as int, v, n as int)
            } else {
                old(self)@
            },
    {
        proof {
            lemma_split_address(addr);
            assert forall|b: int| addr <= b < addr + n implies old(self)@.dom().contains(b) == old(
                self,
            )@.dom().contains(addr as int) by {
                old(self).lemma_whole_pages(b, addr as int);
            }
        }
        let l1i: usize = (addr >> 24) as usize;
        let l2i: usize = ((addr >> 12) & 0xfff) as usize;
        let off: usize = (addr & 0xfff) as usize;
        let ok: bool = match &mut self.l1[l1i] {
            Some(l2) => match &mut l2.ents[l2i] {
                Some(page) => {
                    page[off] = (v & 0xff) as u8;
                    page[off + 1] = ((v >> 8) & 0xff) as u8;
                    if n > 2 {
                        page[off + 2] = ((v >> 16) & 0xff) as u8;
                        page[off + 3] = ((v >> 24) & 0xff) as u8;
                    }
                    if n > 4 {
                        page[off + 4] = ((v >> 32) & 0xff) as u8;
                        page[off + 5] = ((v >> 40) & 0xff) as u8;
                        page[off + 6] = ((v >> 48) & 0xff) as u8;
                        page[off + 7] = ((v >> 56) & 0xff) as u8;
                    }
                    true
                },
                None => false,
            },
            None => false,
        };
        proof {
            if ok {
                assert(v >> 0 == v) by (bit_vector);
                assert(self@ =~= store(old(self)@, addr as int, v, n as int));
            } else {
                assert(self@ =~= old(self)@);
                assert(!old(self)@.dom().contains(addr as int));
            }
            reveal(MemoryMap::counted);
            assert(page_set(self@) =~= page_set(old(self)@));
        }
        ok
    }

    /// Writes a little-endian half-word. Fails, changing nothing, where a
    /// byte of it is not backed.
    pub fn writehword(&mut self, addr: u64, val: u16) -> (ok: bool)
        requires
            old(self).wf(),
        ensures
            final(self).wf(),
            ok == backed(old(self)@, addr as int, 2),
            final(self)@ == if ok {
                store(old(self)@, addr as int, val as u64, 2)
            } else {
                old(self)@
            },
    {
        if addr < ADDRESS_SPACE && addr & 1 == 0 {
            proof {
                lemma_split_address(addr);
            }
            self.store_in_page(addr, val as u64, 2)
        } else {
            self.store_bytes(addr, val as u64, 2)
        }
    }

    /// Writes a little-endian word. Fails, changing nothing, where a byte of
    /// it is not backed.
    pub fn writeword(&mut self, addr: u64, val: u32) -> (ok: bool)
        requires
            old(self).wf(),
        ensures
            final(self).wf(),
            ok == backed(old(self)@, addr as int, 4),
            final(self)@ == if ok {
                store(old(self)@, addr as int, val as u64, 4)
            } else {
                old(self)@
            },
    {
        if addr < ADDRESS_SPACE && addr & 3 == 0 {
            proof {
                lemma_split_address(addr);
            }
            self.store_in_page(addr, val as u64, 4)
        } else {
            self.store_bytes(addr, val as u64, 4)
        }
    }

    /// Writes a little-endian double word. Fails, changing nothing, where a
    /// byte of it is not backed.
    pub fn writedword(&mut self, addr: u64, val: u64) -> (ok: bool)
        requires
            old(self).wf(),
        ensures
            final(self).wf(),
            ok == backed(old(self)@, addr as int, 8),
            final(self)@ == if ok {
                store(old(self)@, addr as int, val, 8)
            } else {
                old(self)@
            },
    {
        if addr < ADDRESS_SPACE && addr & 7 == 0 {
            proof {
                lemma_split_address(addr);
            }
            self.store_in_page(addr, val, 8)
        } else {
            self.store_bytes(addr, val, 8)
        }
    }

    /// Backing is by whole pages inside the 39-bit space: two addresses of
    /// one page are backed together or not at all.
    pub proof fn lemma_whole_pages(&self, a: int, b: int)
        requires
            self.wf(),
            0 <= a,
            0 <= b,
            a / 4096 == b / 4096,
        ensures
            self@.dom().contains(a) == self@.dom().contains(b),
            self@.dom().contains(a) ==> a < ADDRESS_SPACE,
    {
    }

    /// Backs every page that `[start_address, start_address + size)` touches;
    /// new pages hold zeros, pages backed before keep their bytes. Says
    /// whether all of the touched pages are new.
    pub fn allocate_address_range(&mut self, start_address: u64, size: u64) -> (fresh: bool)
        requires
            old(self).wf(),
            start_address + size <= ADDRESS_SPACE,
        ensures
            final(self).wf(),
            final(self)@ == with_pages(
                old(self)@,
                first_page(start_address as int),
                last_page(start_address as int, size as int),
            ),
            fresh == pages_free(
                old(self)@,
                first_page(start_address as int),
                last_page(start_address as int, size as int),
            ),
    {
        if size == 0 {
            assert(self@ =~= with_pages(
                self@,
                first_page(start_address as int),
                last_page(start_address as int, 0),
            ));
            return true;
        }
        let first: u64 = start_address / 4096;
        let end: u64 = (start_address + size - 1) / 4096 + 1;
        let mut pn: u64 = first;
        let mut fresh: bool = true;
        assert(self@ =~= with_pages(self@, first as int, first as int - 1));
        while pn < end
            invariant
                first <= pn <= end,
                end * 4096 <= ADDRESS_SPACE,
                old(self).wf(),
                self.wf(),
                self@ == with_pages(old(self)@, first as int, pn as int - 1),
                fresh == pages_free(old(self)@, first as int, pn as int - 1),
            decreases end - pn,
        {
            let page_fresh: bool = self.allocate_known_page(pn * 4096);
            proof {
                assert(self@ =~= with_pages(old(self)@, first as int, pn as int));
                assert(page_fresh == !old(self)@.dom().contains(pn * 4096));
                assert forall|b: int| 0 <= b && b / 4096 == pn implies #[trigger] old(
                    self,
                )@.dom().contains(b) == old(self)@.dom().contains(pn * 4096) by {
                    old(self).lemma_whole_pages(b, pn * 4096);
                }
                assert((pn * 4096) / 4096 == pn);
            }
            if !page_fresh {
                fresh = false;
            }
            pn += 1;
        }
        fresh
    }

    /// Whether none of the pages that `[start_address, start_address + size)`
    /// touches is backed.
    pub fn range_is_free(&self, start_address: u64, size: u64) -> (free: bool)
        requires
            self.wf(),
        ensures
            free == pages_free(
                self@,
                first_page(start_address as int),
                last_page(start_address as int, size as int),
            ),
    {
        if size == 0 || start_address >= ADDRESS_SPACE {
            proof {
                assert forall|b: int| 0 <= b && start_address / 4096 <= b / 4096 implies !self@.dom().contains(
                    b,
                ) || b / 4096 > last_page(start_address as int, size as int) by {
                    self.lemma_whole_pages(b, b);
                }
            }
            return true;
        }
        let first: u64 = start_address / 4096;
        // pages from the end of the address space on are never backed
        let end: u64 = if size - 1 >= ADDRESS_SPACE - start_address {
            ADDRESS_SPACE / 4096
        } else {
            (start_address + (size - 1)) / 4096 + 1
        };
        let mut pn: u64 = first;
        while pn < end
            invariant
                first <= pn <= end,
                end * 4096 <= ADDRESS_SPACE,
                self.wf(),
                first == first_page(start_address as int),
                end <= last_page(start_address as int, size as int) + 1,
                pages_free(self@, first as int, pn as int - 1),
            decreases end - pn,
        {
            proof {
                assert forall|b: int| 0 <= b && b / 4096 == pn implies #[trigger] self@.dom().contains(
                    b,
                ) == self@.dom().contains(pn * 4096) by {
                    self.lemma_whole_pages(b, pn * 4096);
                }
                assert((pn * 4096) / 4096 == pn);
            }
            if self.readbyte(pn * 4096).is_some() {
                assert(self@.dom().contains(pn * 4096));
                return false;
            }
            pn += 1;
        }
        proof {
            assert forall|b: int| 0 <= b && end <= b / 4096 implies !self@.dom().contains(b) || b
                / 4096 > last_page(start_address as int, size as int) by {
                self.lemma_whole_pages(b, b);
            }
        }
        true
    }

    /// Whether every address in `[addr, addr + len)` is backed.
    pub fn range_is_backed(&self, addr: u64, len: u64) -> (r: bool)
        requires
            self.wf(),
        ensures
            r == backed(self@, addr as int, len as int),
    {
        if len == 0 {
            return true;
        }
        if addr >= ADDRESS_SPACE || len > ADDRESS_SPACE - addr {
            proof {
                self.lemma_whole_pages(addr + len - 1, addr + len - 1);
            }
            return false;
        }
        let first: u64 = addr / 4096;
        let end: u64 = (addr + len - 1) / 4096 + 1;
        let mut pn: u64 = first;
        while pn < end
            invariant
                first <= pn <= end,
                first == addr / 4096,
                end == (addr + len - 1) / 4096 + 1,
                0 < len,
                addr + len <= ADDRESS_SPACE,
                self.wf(),
                forall|b: int| 0 <= b && first <= b / 4096 < pn ==> #[trigger] self@.dom().contains(b),
            decreases end - pn,
        {
            proof {
                assert forall|b: int| 0 <= b && b / 4096 == pn implies #[trigger] self@.dom().contains(
                    b,
                ) == self@.dom().contains(pn * 4096) by {
                    self.lemma_whole_pages(b, pn * 4096);
                }
                assert((pn * 4096) / 4096 == pn);
            }
            if self.readbyte(pn * 4096).is_none() {
                proof {
                    let b: int = if pn == first {
                        addr as int
                    } else {
                        pn * 4096
                    };
                    assert(addr <= b < addr + len && b / 4096 == pn);
                    assert(!self@.dom().contains(b));
                }
                return false;
            }
            pn += 1;
        }
        true
    }

    /// The `len` bytes at `addr`, or nothing where one of them is not backed.
    pub fn read_bytes(&self, addr: u64, len: u64) -> (r: Option<Vec<u8>>)
        requires
            self.wf(),
        ensures
            r is Some == backed(self@, addr as int, len as int),
            r matches Some(v) ==> v@ == Seq::new(len as nat, |i: int| self@[addr + i]),
    {
        let mut out: Vec<u8> = Vec::new();
        let mut i: u64 = 0;
        while i < len
            invariant
                i <= len,
                self.wf(),
                backed(self@, addr as int, i as int),
                out@ == Seq::new(i as nat, |j: int| self@[addr + j]),
                i == 0 || addr + i <= ADDRESS_SPACE,
            decreases len - i,
        {
            if i >= ADDRESS_SPACE || addr >= ADDRESS_SPACE - i {
                assert(!self@.dom().contains(addr + i));
                return None;
            }
            match self.readbyte(addr + i) {
                Some(b) => {
                    out.push(b);
                },
                None => {
                    return None;
                },
            }
            i += 1;
            assert(out@ =~= Seq::new(i as nat, |j: int| self@[addr + j]));
        }
        Some(out)
    }

    /// Copies `data` to `addr` and onwards. Fails, changing nothing, where one
    /// of the addresses it would write is not backed.
    pub fn write_bytes(&mut self, addr: u64, data: &[u8]) -> (ok: bool)
        requires
            old(self).wf(),
        ensures
            final(self).wf(),
            ok == backed(old(self)@, addr as int, data@.len() as int),
            final(self)@ == if ok {
                overlay(old(self)@, addr as int, data@)
            } else {
                old(self)@
            },
    {
        if !self.range_is_backed(addr, data.len() as u64) {
            return false;
        }
        let mut i: usize = 0;
        assert(self@ =~= overlay(old(self)@, addr as int, data@.take(0)));
        while i < data.len()
            invariant
                i <= data.len(),
                old(self).wf(),
                self.wf(),
                backed(old(self)@, addr as int, data@.len() as int),
                self@ == overlay(old(self)@, addr as int, data@.take(i as int)),
            decreases data.len() - i,
        {
            proof {
                old(self).lemma_whole_pages(addr + i, addr + i);
            }
            self.writebyte(addr + i as u64, data[i]);
            i += 1;
            assert(self@ =~= overlay(old(self)@, addr as int, data@.take(i as int)));
        }
        assert(data@.take(data@.len() as int) =~= data@);
        true
    }

    /// A word that straddles two pages, two bytes in each, can be accessed
    /// exactly when both pages are backed.
    pub proof fn lemma_straddling_word(&self, a: int)
        requires
            self.wf(),
            0 <= a,
            a % 4096 == 4094,
        ensures
            backed(self@, a, 4) == (self@.dom().contains(a) && self@.dom().contains(a + 2)),
    {
        let d = self@.dom();
        assert(d.contains(a) == d.contains(a + 1)) by {
            self.lemma_whole_pages(a, a + 1);
        }
        assert(d.contains(a + 2) == d.contains(a + 3)) by {
            self.lemma_whole_pages(a + 2, a + 3);
        }
        if d.contains(a) && d.contains(a + 2) {
            assert forall|b: int| a <= b < a + 4 implies #[trigger] d.contains(b) by {
                assert(b == a || b == a + 1 || b == a + 2 || b == a + 3);
            }
        }
    }
}

} // verus!
