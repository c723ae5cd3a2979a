use vstd::prelude::*;

use std::collections::HashMap;

verus! {

broadcast use vstd::std_specs::hash::group_hash_axioms;

/// The unit of mapping and protection, in bytes.  A power of two.
pub const PAGE_SIZE: u64 = 0x1000;

/// Upper bound (exclusive) on page numbers: a page number below this bound
/// times `PAGE_SIZE` always fits in a `u64`.
pub const PAGE_NUM_LIMIT: u64 = 0x10_0000_0000_0000;

/// Permission bits over {R, W, X}.  The empty set is `PERM_NONE`.
pub const PERM_NONE: u8 = 0;
pub const PERM_R: u8 = 1;
pub const PERM_W: u8 = 2;
pub const PERM_X: u8 = 4;
pub const PERM_RW: u8 = 3;
pub const PERM_RX: u8 = 5;
pub const PERM_RWX: u8 = 7;

/// Errors surfaced by the memory manager.
#[derive(Clone, Copy, PartialEq, Eq, Structural, Debug)]
pub enum MmuError {
    /// The addressed byte lies on no currently-mapped page.
    NotMapped(u64),
    /// The page exists but lacks the required permission bits.
    AccessViolation(u64, u8),
    /// An API argument violates page alignment.
    Unaligned(u64),
    /// `mmap` was asked to create a page that already exists.
    AlreadyMapped(u64),
}

/// One mapped page: a fixed-size byte array and its permissions.
#[derive(Clone, Debug)]
pub struct Page {
    pub bytes: Vec<u8>,
    pub perms: u8,
}

/// The page number holding the given address.
pub open spec fn page_num(va: u64) -> u64 {
    va / PAGE_SIZE
}

/// The offset of the given address within its page.
pub open spec fn page_off(va: u64) -> int {
    (va % PAGE_SIZE) as int
}

/// Is the byte at `va` on a mapped page?
pub open spec fn mem_mapped(m: Map<u64, Page>, va: u64) -> bool {
    m.contains_key(page_num(va))
}

/// The byte stored at `va`.
pub open spec fn mem_byte(m: Map<u64, Page>, va: u64) -> u8 {
    m[page_num(va)].bytes@[page_off(va)]
}

/// The permissions of the page holding `va`.
pub open spec fn mem_perms(m: Map<u64, Page>, va: u64) -> u8 {
    m[page_num(va)].perms
}

/// The byte at `va` is mapped with at least the permission bits `perm`.
pub open spec fn mem_has(m: Map<u64, Page>, va: u64, perm: u8) -> bool {
    mem_mapped(m, va) && mem_perms(m, va) & perm == perm
}

/// Every byte of `[va, va + len)` is mapped with permissions `perm`.
pub open spec fn span_ok(m: Map<u64, Page>, va: u64, len: int, perm: u8) -> bool {
    forall|j: int| 0 <= j < len ==> mem_has(m, #[trigger] ((va + j) as u64), perm)
}

/// The error a span access reports, scanning bytes in ascending address
/// order: the first byte on no page gives `NotMapped`, the first byte whose
/// page lacks `perm` gives `AccessViolation`.  `None` means the whole span is
/// accessible.
pub open spec fn span_err(m: Map<u64, Page>, va: u64, len: int, perm: u8) -> Option<MmuError>
    decreases len,
{
    if len <= 0 {
        None
    } else if !mem_mapped(m, va) {
        Some(MmuError::NotMapped(va))
    } else if mem_perms(m, va) & perm != perm {
        Some(MmuError::AccessViolation(va, perm))
    } else {
        span_err(m, ((va + 1) as u64), len - 1, perm)
    }
}

/// The sequence of bytes a read of `[va, va + len)` returns.
pub open spec fn mem_read_seq(m: Map<u64, Page>, va: u64, len: int) -> Seq<u8> {
    Seq::new(len as nat, |j: int| mem_byte(m, ((va + j) as u64)))
}

/// Does `w` lie inside `[va, va + len)`?
pub open spec fn in_span(va: u64, len: int, w: u64) -> bool {
    va <= w < va + len
}

/// How memory after a span write relates to memory before it: the same pages
/// exist with the same permissions and sizes, the written span holds `data`,
/// and every byte outside the span is untouched.
pub open spec fn mem_written(m0: Map<u64, Page>, m1: Map<u64, Page>, va: u64, data: Seq<u8>) -> bool {
    &&& forall|pn: u64| m0.contains_key(pn) <==> m1.contains_key(pn)
    &&& forall|pn: u64| #[trigger] m0.contains_key(pn) ==> m1[pn].perms == m0[pn].perms
        && m1[pn].bytes@.len() == m0[pn].bytes@.len()
    &&& forall|j: int| 0 <= j < data.len() ==> mem_byte(m1, #[trigger] ((va + j) as u64)) == data[j]
    &&& forall|w: u64| mem_mapped(m0, w) && !in_span(va, data.len() as int, w)
        ==> #[trigger] mem_byte(m1, w) == mem_byte(m0, w)
}

/// The first already-mapped page number among `[pn0, pn0 + count)`, in
/// ascending order.
pub open spec fn first_mapped_page(m: Map<u64, Page>, pn0: u64, count: u64) -> Option<u64>
    decreases count,
{
    if count == 0 {
        None
    } else if m.contains_key(pn0) {
        Some(pn0)
    } else {
        first_mapped_page(m, ((pn0 + 1) as u64), ((count - 1) as u64))
    }
}

/// The first absent page number among `[pn0, pn0 + count)`, in ascending
/// order.
pub open spec fn first_unmapped_page(m: Map<u64, Page>, pn0: u64, count: u64) -> Option<u64>
    decreases count,
{
    if count == 0 {
        None
    } else if !m.contains_key(pn0) {
        Some(pn0)
    } else {
        first_unmapped_page(m, ((pn0 + 1) as u64), ((count - 1) as u64))
    }
}

/// An address is the sum of its page base and its intra-page offset; two
/// addresses with equal page number and offset are equal.
pub proof fn lemma_va_split(a: u64)
    ensures
        a == page_num(a) * PAGE_SIZE + page_off(a),
        page_num(a) < PAGE_NUM_LIMIT,
{
    vstd::arithmetic::div_mod::lemma_fundamental_div_mod(a as int, PAGE_SIZE as int);
}

/// Two addresses on the same page with the same offset are the same address.
pub proof fn lemma_va_eq(a: u64, b: u64)
    requires
        page_num(a) == page_num(b),
        page_off(a) == page_off(b),
    ensures
        a == b,
{
    lemma_va_split(a);
    lemma_va_split(b);
}

/// A paged virtual memory: a sparse mapping from page number
/// (`va / PAGE_SIZE`) to page contents and permissions.
#[derive(Clone, Debug)]
pub struct MMU {
    pages: HashMap<u64, Page>,
}

impl View for MMU {
    type V = Map<u64, Page>;

    closed spec fn view(&self) -> Map<u64, Page> {
        self.pages@
    }
}

impl MMU {
    /// Structural invariant: every mapped page holds exactly `PAGE_SIZE`
    /// bytes, and its page number keeps every contained address inside the
    /// 64-bit space.
    pub open spec fn inv(self) -> bool {
        forall|pn: u64| #[trigger] self@.contains_key(pn)
            ==> self@[pn].bytes@.len() == PAGE_SIZE && pn < PAGE_NUM_LIMIT
    }

    /// An empty address space: nothing is mapped.
    pub fn new() -> (r: MMU)
        ensures
            r.inv(),
            r@ == Map::<u64, Page>::empty(),
    {
        MMU { pages: HashMap::new() }
    }

    /// Map the pages covering `[base, base + length)` with the given
    /// permissions and zeroed contents.  `base` and `length` must be
    /// page-aligned; no page in the range may already exist.
    pub fn mmap(&mut self, base: u64, length: u64, perms: u8) -> (r: Result<(), MmuError>)
        requires
            old(self).inv(),
            base as int + length as int <= u64::MAX as int + 1,
        ensures
            final(self).inv(),
            match r {
                Ok(()) => {
                    &&& base % PAGE_SIZE == 0 && length % PAGE_SIZE == 0
                    &&& first_mapped_page(old(self)@, page_num(base), length / PAGE_SIZE) is None
                    &&& forall|pn: u64| page_num(base) <= pn < page_num(base) + length / PAGE_SIZE
                        ==> #[trigger] final(self)@.contains_key(pn)
                            && final(self)@[pn].perms == perms
                            && final(self)@[pn].bytes@ =~= Seq::new(PAGE_SIZE as nat, |j: int| 0u8)
                    &&& forall|pn: u64| !(page_num(base) <= pn < page_num(base) + length / PAGE_SIZE)
                        ==> (#[trigger] final(self)@.contains_key(pn) <==> old(self)@.contains_key(pn))
                            && (old(self)@.contains_key(pn) ==> final(self)@[pn] == old(self)@[pn])
                },
                Err(MmuError::Unaligned(x)) => {
                    &&& final(self)@ == old(self)@
                    &&& (base % PAGE_SIZE != 0 && x == base)
                        || (base % PAGE_SIZE == 0 && length % PAGE_SIZE != 0 && x == length)
                },
                Err(MmuError::AlreadyMapped(x)) => {
                    &&& final(self)@ == old(self)@
                    &&& base % PAGE_SIZE == 0 && length % PAGE_SIZE == 0
                    &&& first_mapped_page(old(self)@, page_num(base), length / PAGE_SIZE)
                        == Some(page_num(x))
                    &&& x == page_num(x) * PAGE_SIZE
                },
                Err(_) => false,
            },
    {
        if base % PAGE_SIZE != 0 {
            return Err(MmuError::Unaligned(base));
        }
        if length % PAGE_SIZE != 0 {
            return Err(MmuError::Unaligned(length));
        }
        let pn0: u64 = base / PAGE_SIZE;
        let count: u64 = length / PAGE_SIZE;
        proof {
            lemma_va_split(base);
        }
        // Validate first: no page in the target range may exist yet, so a
        // failure leaves the mapping untouched.
        let mut j: u64 = 0;
        while j < count
            invariant
                self.inv(),
                self@ == old(self)@,
                j <= count,
                pn0 == base / PAGE_SIZE,
                count == length / PAGE_SIZE,
                base % PAGE_SIZE == 0,
                length % PAGE_SIZE == 0,
                base as int + length as int <= u64::MAX as int + 1,
                forall|k: u64| pn0 <= k < pn0 + j ==> !(#[trigger] self@.contains_key(k)),
                first_mapped_page(self@, pn0, count)
                    == first_mapped_page(self@, ((pn0 + j) as u64), ((count - j) as u64)),
            decreases count - j,
        {
            proof {
                lemma_page_range_bound(base, length, j as int);
            }
            if self.pages.contains_key(&(pn0 + j)) {
                proof {
                    reveal_with_fuel(first_mapped_page, 2);
                    vstd::arithmetic::div_mod::lemma_fundamental_div_mod_converse(
                        ((pn0 + j) * PAGE_SIZE) as int, PAGE_SIZE as int, (pn0 + j) as int, 0);
                }
                return Err(MmuError::AlreadyMapped((pn0 + j) * PAGE_SIZE));
            }
            proof {
                reveal_with_fuel(first_mapped_page, 2);
            }
            j += 1;
        }
        // Create the pages.
        let ghost m0 = self@;
        let mut k: u64 = 0;
        while k < count
            invariant
                self.inv(),
                k <= count,
                pn0 == base / PAGE_SIZE,
                count == length / PAGE_SIZE,
                base % PAGE_SIZE == 0,
                length % PAGE_SIZE == 0,
                base as int + length as int <= u64::MAX as int + 1,
                forall|pn: u64| pn0 <= pn < pn0 + k ==> #[trigger] self@.contains_key(pn)
                    && self@[pn].perms == perms
                    && self@[pn].bytes@ =~= Seq::new(PAGE_SIZE as nat, |j: int| 0u8),
                forall|pn: u64| !(pn0 <= pn < pn0 + k)
                    ==> (#[trigger] self@.contains_key(pn) <==> m0.contains_key(pn))
                        && (m0.contains_key(pn) ==> self@[pn] == m0[pn]),
            decreases count - k,
        {
            proof {
                lemma_page_range_bound(base, length, k as int);
            }
            let page = Page { bytes: zero_page(), perms };
            let ghost prev = self@;
            let ghost gpage = page;
            self.pages.insert(pn0 + k, page);
            proof {
                assert(self@ =~= prev.insert((pn0 + k) as u64, gpage));
            }
            k += 1;
        }
        proof {
            lemma_va_split(base);
            lemma_va_split(length);
            lemma_first_mapped_none(m0, pn0, count);
        }
        Ok(())
    }

    /// Remove every page covering `[base, base + length)`.  Fails with
    /// `NotMapped` (naming the first missing page) if any is absent, leaving
    /// the mapping untouched.
    pub fn munmap(&mut self, base: u64, length: u64) -> (r: Result<(), MmuError>)
        requires
            old(self).inv(),
            base as int + length as int <= u64::MAX as int + 1,
        ensures
            final(self).inv(),
            match r {
                Ok(()) => {
                    &&& base % PAGE_SIZE == 0 && length % PAGE_SIZE == 0
                    &&& first_unmapped_page(old(self)@, page_num(base), length / PAGE_SIZE) is None
                    &&& forall|pn: u64| page_num(base) <= pn < page_num(base) + length / PAGE_SIZE
                        ==> !(#[trigger] final(self)@.contains_key(pn))
                    &&& forall|pn: u64| !(page_num(base) <= pn < page_num(base) + length / PAGE_SIZE)
                        ==> (#[trigger] final(self)@.contains_key(pn) <==> old(self)@.contains_key(pn))
                            && (old(self)@.contains_key(pn) ==> final(self)@[pn] == old(self)@[pn])
                },
                Err(MmuError::Unaligned(x)) => {
                    &&& final(self)@ == old(self)@
                    &&& (base % PAGE_SIZE != 0 && x == base)
                        || (base % PAGE_SIZE == 0 && length % PAGE_SIZE != 0 && x == length)
                },
                Err(MmuError::NotMapped(x)) => {
                    &&& final(self)@ == old(self)@
                    &&& base % PAGE_SIZE == 0 && length % PAGE_SIZE == 0
                    &&& first_unmapped_page(old(self)@, page_num(base), length / PAGE_SIZE)
                        == Some(page_num(x))
                    &&& x == page_num(x) * PAGE_SIZE
                },
                Err(_) => false,
            },
    {
        if base % PAGE_SIZE != 0 {
            return Err(MmuError::Unaligned(base));
        }
        if length % PAGE_SIZE != 0 {
            return Err(MmuError::Unaligned(length));
        }
        let pn0: u64 = base / PAGE_SIZE;
        let count: u64 = length / PAGE_SIZE;
        proof {
            lemma_va_split(base);
        }
        let mut j: u64 = 0;
        while j < count
            invariant
                self.inv(),
                self@ == old(self)@,
                j <= count,
                pn0 == base / PAGE_SIZE,
                count == length / PAGE_SIZE,
                base % PAGE_SIZE == 0,
                length % PAGE_SIZE == 0,
                base as int + length as int <= u64::MAX as int + 1,
                forall|k: u64| pn0 <= k < pn0 + j ==> #[trigger] self@.contains_key(k),
                first_unmapped_page(self@, pn0, count)
                    == first_unmapped_page(self@, ((pn0 + j) as u64), ((count - j) as u64)),
            decreases count - j,
        {
            proof {
                lemma_page_range_bound(base, length, j as int);
            }
            if !self.pages.contains_key(&(pn0 + j)) {
                proof {
                    reveal_with_fuel(first_unmapped_page, 2);
                    vstd::arithmetic::div_mod::lemma_fundamental_div_mod_converse(
                        ((pn0 + j) * PAGE_SIZE) as int, PAGE_SIZE as int, (pn0 + j) as int, 0);
                }
                return Err(MmuError::NotMapped((pn0 + j) * PAGE_SIZE));
            }
            proof {
                reveal_with_fuel(first_unmapped_page, 2);
            }
            j += 1;
        }
        let ghost m0 = self@;
        let mut k: u64 = 0;
        while k < count
            invariant
                self.inv(),
                k <= count,
                pn0 == base / PAGE_SIZE,
                count == length / PAGE_SIZE,
                base % PAGE_SIZE == 0,
                length % PAGE_SIZE == 0,
                base as int + length as int <= u64::MAX as int + 1,
                forall|pn: u64| pn0 <= pn < pn0 + k ==> !(#[trigger] self@.contains_key(pn)),
                forall|pn: u64| !(pn0 <= pn < pn0 + k)
                    ==> (#[trigger] self@.contains_key(pn) <==> m0.contains_key(pn))
                        && (m0.contains_key(pn) ==> self@[pn] == m0[pn]),
            decreases count - k,
        {
            let ghost prev = self@;
            self.pages.remove(&(pn0 + k));
            proof {
                assert(self@ =~= prev.remove((pn0 + k) as u64));
            }
            k += 1;
        }
        proof {
            lemma_va_split(base);
            lemma_va_split(length);
            lemma_first_unmapped_none(m0, pn0, count);
        }
        Ok(())
    }

    /// Change the permissions of every page covering `[base, base + length)`
    /// to exactly `perms`, leaving bytes untouched.  Fails with `NotMapped`
    /// if any page in the range is absent, leaving the mapping untouched.
    pub fn mprotect(&mut self, base: u64, length: u64, perms: u8) -> (r: Result<(), MmuError>)
        requires
            old(self).inv(),
            base as int + length as int <= u64::MAX as int + 1,
        ensures
            final(self).inv(),
            match r {
                Ok(()) => {
                    &&& base % PAGE_SIZE == 0 && length % PAGE_SIZE == 0
                    &&& first_unmapped_page(old(self)@, page_num(base), length / PAGE_SIZE) is None
                    &&& forall|pn: u64| page_num(base) <= pn < page_num(base) + length / PAGE_SIZE
                        ==> #[trigger] final(self)@.contains_key(pn)
                            && final(self)@[pn].perms == perms
                            && final(self)@[pn].bytes@ == old(self)@[pn].bytes@
                    &&& forall|pn: u64| !(page_num(base) <= pn < page_num(base) + length / PAGE_SIZE)
                        ==> (#[trigger] final(self)@.contains_key(pn) <==> old(self)@.contains_key(pn))
                            && (old(self)@.contains_key(pn) ==> final(self)@[pn] == old(self)@[pn])
                },
                Err(MmuError::Unaligned(x)) => {
                    &&& final(self)@ == old(self)@
                    &&& (base % PAGE_SIZE != 0 && x == base)
                        || (base % PAGE_SIZE == 0 && length % PAGE_SIZE != 0 && x == length)
                },
                Err(MmuError::NotMapped(x)) => {
                    &&& final(self)@ == old(self)@
                    &&& base % PAGE_SIZE == 0 && length % PAGE_SIZE == 0
                    &&& first_unmapped_page(old(self)@, page_num(base), length / PAGE_SIZE)
                        == Some(page_num(x))
                    &&& x == page_num(x) * PAGE_SIZE
                },
                Err(_) => false,
            },
    {
        if base % PAGE_SIZE != 0 {
            return Err(MmuError::Unaligned(base));
        }
        if length % PAGE_SIZE != 0 {
            return Err(MmuError::Unaligned(length));
        }
        let pn0: u64 = base / PAGE_SIZE;
        let count: u64 = length / PAGE_SIZE;
        proof {
            lemma_va_split(base);
        }
        let mut j: u64 = 0;
        while j < count
            invariant
                self.inv(),
                self@ == old(self)@,
                j <= count,
                pn0 == base / PAGE_SIZE,
                count == length / PAGE_SIZE,
                base % PAGE_SIZE == 0,
                length % PAGE_SIZE == 0,
                base as int + length as int <= u64::MAX as int + 1,
                forall|k: u64| pn0 <= k < pn0 + j ==> #[trigger] self@.contains_key(k),
                first_unmapped_page(self@, pn0, count)
                    == first_unmapped_page(self@, ((pn0 + j) as u64), ((count - j) as u64)),
            decreases count - j,
        {
            proof {
                lemma_page_range_bound(base, length, j as int);
            }
            if !self.pages.contains_key(&(pn0 + j)) {
                proof {
                    reveal_with_fuel(first_unmapped_page, 2);
                    vstd::arithmetic::div_mod::lemma_fundamental_div_mod_converse(
                        ((pn0 + j) * PAGE_SIZE) as int, PAGE_SIZE as int, (pn0 + j) as int, 0);
                }
                return Err(MmuError::NotMapped((pn0 + j) * PAGE_SIZE));
            }
            proof {
                reveal_with_fuel(first_unmapped_page, 2);
            }
            j += 1;
        }
        let ghost m0 = self@;
        let mut k: u64 = 0;
        while k < count
            invariant
                self.inv(),
                k <= count,
                pn0 == base / PAGE_SIZE,
                count == length / PAGE_SIZE,
                base % PAGE_SIZE == 0,
                length % PAGE_SIZE == 0,
                base as int + length as int <= u64::MAX as int + 1,
                forall|pn: u64| pn0 <= pn < pn0 + count ==> #[trigger] m0.contains_key(pn),
                forall|pn: u64| pn0 <= pn < pn0 + k ==> #[trigger] self@.contains_key(pn)
                    && self@[pn].perms == perms
                    && self@[pn].bytes@ == m0[pn].bytes@,
                forall|pn: u64| !(pn0 <= pn < pn0 + k)
                    ==> (#[trigger] self@.contains_key(pn) <==> m0.contains_key(pn))
                        && (m0.contains_key(pn) ==> self@[pn] == m0[pn]),
            decreases count - k,
        {
            proof {
                lemma_page_range_bound(base, length, k as int);
            }
            let pn = pn0 + k;
            let ghost prev = self@;
            proof {
                assert(m0.contains_key((pn0 + k) as u64));
                assert(self@.contains_key((pn0 + k) as u64));
            }
            match self.pages.remove(&pn) {
                Some(page) => {
                    let new_page = Page { bytes: page.bytes, perms };
                    let ghost gpage = new_page;
                    self.pages.insert(pn, new_page);
                    proof {
                        assert(self@ =~= prev.insert(pn, gpage));
                        assert(prev.contains_key(pn) && prev[pn] == m0[pn]);
                        assert(self@[pn].perms == perms && self@[pn].bytes@ == m0[pn].bytes@);
                    }
                },
                None => {
                    vstd::pervasive::unreached()
                },
            }
            k += 1;
        }
        proof {
            lemma_va_split(base);
            lemma_va_split(length);
            lemma_first_unmapped_none(m0, pn0, count);
        }
        Ok(())
    }

    /// Bulk overwrite of one whole mapped page, bypassing permission checks.
    /// This is the loader-initialization path, distinct from `write`.
    pub fn write_page(&mut self, base: u64, data: &[u8]) -> (r: Result<(), MmuError>)
        requires
            old(self).inv(),
            data@.len() == PAGE_SIZE,
        ensures
            final(self).inv(),
            match r {
                Ok(()) => {
                    &&& base % PAGE_SIZE == 0 && old(self)@.contains_key(page_num(base))
                    &&& final(self)@.contains_key(page_num(base))
                    &&& final(self)@[page_num(base)].bytes@ == data@
                    &&& final(self)@[page_num(base)].perms == old(self)@[page_num(base)].perms
                    &&& forall|pn: u64| pn != page_num(base)
                        ==> (#[trigger] final(self)@.contains_key(pn) <==> old(self)@.contains_key(pn))
                            && (old(self)@.contains_key(pn) ==> final(self)@[pn] == old(self)@[pn])
                },
                Err(MmuError::Unaligned(x)) => {
                    final(self)@ == old(self)@ && base % PAGE_SIZE != 0 && x == base
                },
                Err(MmuError::NotMapped(x)) => {
                    &&& final(self)@ == old(self)@
                    &&& base % PAGE_SIZE == 0 && !old(self)@.contains_key(page_num(base))
                    &&& x == base
                },
                Err(_) => false,
            },
    {
        if base % PAGE_SIZE != 0 {
            return Err(MmuError::Unaligned(base));
        }
        let pn: u64 = base / PAGE_SIZE;
        let ghost prev = self@;
        match self.pages.remove(&pn) {
            Some(page) => {
                let new_page = Page { bytes: vstd::slice::slice_to_vec(data), perms: page.perms };
                let ghost gpage = new_page;
                self.pages.insert(pn, new_page);
                proof {
                    assert(self@ =~= prev.insert(pn, gpage));
                }
                Ok(())
            },
            None => Err(MmuError::NotMapped(base)),
        }
    }

    /// Copy `length` bytes starting at `va`.  Every touched page must exist
    /// and carry R; otherwise the error names the first offending byte.
    pub fn read(&self, va: u64, length: usize) -> (r: Result<Vec<u8>, MmuError>)
        requires
            self.inv(),
            va as int + length as int <= u64::MAX as int + 1,
        ensures
            match r {
                Ok(v) => {
                    &&& span_err(self@, va, length as int, PERM_R) is None
                    &&& v@ == mem_read_seq(self@, va, length as int)
                },
                Err(e) => span_err(self@, va, length as int, PERM_R) == Some(e),
            },
    {
        self.read_perm(va, length, PERM_R)
    }

    /// Copy `length` bytes starting at `va`, demanding the permission bits
    /// `perm` on every touched page.  Instruction fetch reads with X.
    pub fn read_perm(&self, va: u64, length: usize, perm: u8) -> (r: Result<Vec<u8>, MmuError>)
        requires
            self.inv(),
            va as int + length as int <= u64::MAX as int + 1,
        ensures
            match r {
                Ok(v) => {
                    &&& span_err(self@, va, length as int, perm) is None
                    &&& v@ == mem_read_seq(self@, va, length as int)
                },
                Err(e) => span_err(self@, va, length as int, perm) == Some(e),
            },
    {
        let mut out: Vec<u8> = Vec::new();
        let mut i: usize = 0;
        while i < length
            invariant
                self.inv(),
                va as int + length as int <= u64::MAX as int + 1,
                i <= length,
                out@.len() == i,
                forall|j: int| 0 <= j < i ==> mem_has(self@, #[trigger] ((va + j) as u64), perm),
                forall|j: int| 0 <= j < i ==> out@[j] == mem_byte(self@, ((va + j) as u64)),
            decreases length - i,
        {
            let addr: u64 = va + (i as u64);
            let pn: u64 = addr / PAGE_SIZE;
            let off: u64 = addr % PAGE_SIZE;
            proof {
                lemma_span_err_prefix(self@, va, length as int, perm, i as int);
                reveal_with_fuel(span_err, 2);
            }
            match self.pages.get(&pn) {
                None => {
                    return Err(MmuError::NotMapped(addr));
                },
                Some(p) => {
                    if p.perms & perm != perm {
                        return Err(MmuError::AccessViolation(addr, perm));
                    }
                    out.push(p.bytes[off as usize]);
                },
            }
            i += 1;
        }
        proof {
            lemma_span_err_prefix(self@, va, length as int, perm, length as int);
            assert(out@ =~= mem_read_seq(self@, va, length as int));
        }
        Ok(out)
    }

    /// Write `data` starting at `va`.  Every touched page must exist and
    /// carry W; a failing check leaves memory untouched and names the first
    /// offending byte.
    pub fn write(&mut self, va: u64, data: &[u8]) -> (r: Result<(), MmuError>)
        requires
            old(self).inv(),
            va as int + data@.len() <= u64::MAX as int + 1,
        ensures
            final(self).inv(),
            match r {
                Ok(()) => {
                    &&& span_err(old(self)@, va, data@.len() as int, PERM_W) is None
                    &&& mem_written(old(self)@, final(self)@, va, data@)
                },
                Err(e) => {
                    &&& span_err(old(self)@, va, data@.len() as int, PERM_W) == Some(e)
                    &&& final(self)@ == old(self)@
                },
            },
    {
        let length: usize = data.len();
        // Validate the whole span first: no partial side effects.
        let mut i: usize = 0;
        while i < length
            invariant
                self.inv(),
                self@ == old(self)@,
                va as int + length as int <= u64::MAX as int + 1,
                length == data@.len(),
                i <= length,
                forall|j: int| 0 <= j < i ==> mem_has(self@, #[trigger] ((va + j) as u64), PERM_W),
            decreases length - i,
        {
            let addr: u64 = va + (i as u64);
            let pn: u64 = addr / PAGE_SIZE;
            proof {
                lemma_span_err_prefix(self@, va, length as int, PERM_W, i as int);
                reveal_with_fuel(span_err, 2);
            }
            match self.pages.get(&pn) {
                None => {
                    return Err(MmuError::NotMapped(addr));
                },
                Some(p) => {
                    if p.perms & PERM_W != PERM_W {
                        return Err(MmuError::AccessViolation(addr, PERM_W));
                    }
                },
            }
            i += 1;
        }
        proof {
            lemma_span_err_prefix(self@, va, length as int, PERM_W, length as int);
        }
        let ghost m0 = self@;
        let mut i: usize = 0;
        while i < length
            invariant
                self.inv(),
                va as int + length as int <= u64::MAX as int + 1,
                length == data@.len(),
                i <= length,
                forall|j: int| 0 <= j < length ==> mem_has(m0, #[trigger] ((va + j) as u64), PERM_W),
                forall|pn: u64| m0.contains_key(pn) <==> self@.contains_key(pn),
                forall|pn: u64| #[trigger] m0.contains_key(pn) ==> self@[pn].perms == m0[pn].perms
                    && self@[pn].bytes@.len() == m0[pn].bytes@.len(),
                forall|j: int| 0 <= j < i ==> mem_byte(self@, #[trigger] ((va + j) as u64)) == data@[j],
                forall|w: u64| mem_mapped(m0, w) && !in_span(va, i as int, w)
                    ==> #[trigger] mem_byte(self@, w) == mem_byte(m0, w),
            decreases length - i,
        {
            let addr: u64 = va + (i as u64);
            let pn: u64 = addr / PAGE_SIZE;
            let off: u64 = addr % PAGE_SIZE;
            let ghost prev = self@;
            proof {
                assert(mem_has(m0, ((va + i as int) as u64), PERM_W));
                assert(((va + i as int) as u64) == addr);
            }
            match self.pages.remove(&pn) {
                Some(mut page) => {
                    page.bytes[off as usize] = data[i];
                    let ghost gpage = page;
                    self.pages.insert(pn, page);
                    proof {
                        assert(self@ =~= prev.insert(pn, gpage));
                    }
                },
                None => {
                    vstd::pervasive::unreached()
                },
            }
            proof {
                assert forall|w: u64| mem_mapped(prev, w) && w != addr
                    implies mem_byte(self@, w) == mem_byte(prev, w) by {
                    if page_num(w) == pn {
                        lemma_va_eq_or_off(w, addr);
                    }
                }
                assert forall|j: int| 0 <= j < i
                    implies mem_byte(self@, #[trigger] ((va + j) as u64)) == data@[j] by {
                    assert((va + j) as u64 != addr);
                }
                assert forall|w: u64| mem_mapped(m0, w) && !in_span(va, (i + 1) as int, w)
                    implies #[trigger] mem_byte(self@, w) == mem_byte(m0, w) by {
                    assert(mem_mapped(prev, w));
                    assert(!in_span(va, i as int, w));
                    assert(w != addr);
                    assert(mem_byte(prev, w) == mem_byte(m0, w));
                }
            }
            i += 1;
        }
        Ok(())
    }

    /// Read one byte.
    pub fn read_u8(&self, va: u64) -> (r: Result<u8, MmuError>)
        requires
            self.inv(),
            va as int + 1 <= u64::MAX as int + 1,
        ensures
            match r {
                Ok(v) => span_err(self@, va, 1, PERM_R) is None
                    && v == mem_byte(self@, va),
                Err(e) => span_err(self@, va, 1, PERM_R) == Some(e),
            },
    {
        match self.read(va, 1) {
            Ok(b) => Ok(b[0]),
            Err(e) => Err(e),
        }
    }

    /// Read a little-endian 16-bit word.
    pub fn read_u16(&self, va: u64) -> (r: Result<u16, MmuError>)
        requires
            self.inv(),
            va as int + 2 <= u64::MAX as int + 1,
        ensures
            match r {
                Ok(v) => span_err(self@, va, 2, PERM_R) is None
                    && v == crate::endian::le16_val(mem_read_seq(self@, va, 2)),
                Err(e) => span_err(self@, va, 2, PERM_R) == Some(e),
            },
    {
        match self.read(va, 2) {
            Ok(b) => Ok(crate::endian::le16_of_bytes(&b)),
            Err(e) => Err(e),
        }
    }

    /// Read a little-endian 32-bit word.
    pub fn read_u32(&self, va: u64) -> (r: Result<u32, MmuError>)
        requires
            self.inv(),
            va as int + 4 <= u64::MAX as int + 1,
        ensures
            match r {
                Ok(v) => span_err(self@, va, 4, PERM_R) is None
                    && v == crate::endian::le32_val(mem_read_seq(self@, va, 4)),
                Err(e) => span_err(self@, va, 4, PERM_R) == Some(e),
            },
    {
        match self.read(va, 4) {
            Ok(b) => Ok(crate::endian::le32_of_bytes(&b)),
            Err(e) => Err(e),
        }
    }

    /// Read a little-endian 64-bit word.
    pub fn read_u64(&self, va: u64) -> (r: Result<u64, MmuError>)
        requires
            self.inv(),
            va as int + 8 <= u64::MAX as int + 1,
        ensures
            match r {
                Ok(v) => span_err(self@, va, 8, PERM_R) is None
                    && v == crate::endian::le64_val(mem_read_seq(self@, va, 8)),
                Err(e) => span_err(self@, va, 8, PERM_R) == Some(e),
            },
    {
        match self.read(va, 8) {
            Ok(b) => Ok(crate::endian::le64_of_bytes(&b)),
            Err(e) => Err(e),
        }
    }

    /// Read a little-endian 128-bit word.
    pub fn read_u128(&self, va: u64) -> (r: Result<u128, MmuError>)
        requires
            self.inv(),
            va as int + 16 <= u64::MAX as int + 1,
        ensures
            match r {
                Ok(v) => span_err(self@, va, 16, PERM_R) is None
                    && v == crate::endian::le128_val(mem_read_seq(self@, va, 16)),
                Err(e) => span_err(self@, va, 16, PERM_R) == Some(e),
            },
    {
        match self.read(va, 16) {
            Ok(b) => Ok(crate::endian::le128_of_bytes(&b)),
            Err(e) => Err(e),
        }
    }

    /// Write one byte.
    pub fn write_u8(&mut self, va: u64, v: u8) -> (r: Result<(), MmuError>)
        requires
            old(self).inv(),
            va as int + 1 <= u64::MAX as int + 1,
        ensures
            final(self).inv(),
            match r {
                Ok(()) => span_err(old(self)@, va, 1, PERM_W) is None
                    && mem_written(old(self)@, final(self)@, va, seq![v]),
                Err(e) => span_err(old(self)@, va, 1, PERM_W) == Some(e)
                    && final(self)@ == old(self)@,
            },
    {
        let mut buf: Vec<u8> = Vec::new();
        buf.push(v);
        let r = self.write(va, buf.as_slice());
        proof {
            assert(buf@ =~= seq![v]);
        }
        r
    }

    /// Write a little-endian 16-bit word.
    pub fn write_u16(&mut self, va: u64, v: u16) -> (r: Result<(), MmuError>)
        requires
            old(self).inv(),
            va as int + 2 <= u64::MAX as int + 1,
        ensures
            final(self).inv(),
            match r {
                Ok(()) => span_err(old(self)@, va, 2, PERM_W) is None
                    && mem_written(old(self)@, final(self)@, va, crate::endian::le16_bytes(v)),
                Err(e) => span_err(old(self)@, va, 2, PERM_W) == Some(e)
                    && final(self)@ == old(self)@,
            },
    {
        let buf = crate::endian::le16_to_bytes(v);
        self.write(va, buf.as_slice())
    }

    /// Write a little-endian 32-bit word.
    pub fn write_u32(&mut self, va: u64, v: u32) -> (r: Result<(), MmuError>)
        requires
            old(self).inv(),
            va as int + 4 <= u64::MAX as int + 1,
        ensures
            final(self).inv(),
            match r {
                Ok(()) => span_err(old(self)@, va, 4, PERM_W) is None
                    && mem_written(old(self)@, final(self)@, va, crate::endian::le32_bytes(v)),
                Err(e) => span_err(old(self)@, va, 4, PERM_W) == Some(e)
                    && final(self)@ == old(self)@,
            },
    {
        let buf = crate::endian::le32_to_bytes(v);
        self.write(va, buf.as_slice())
    }

    /// Write a little-endian 64-bit word.
    pub fn write_u64(&mut self, va: u64, v: u64) -> (r: Result<(), MmuError>)
        requires
            old(self).inv(),
            va as int + 8 <= u64::MAX as int + 1,
        ensures
            final(self).inv(),
            match r {
                Ok(()) => span_err(old(self)@, va, 8, PERM_W) is None
                    && mem_written(old(self)@, final(self)@, va, crate::endian::le64_bytes(v)),
                Err(e) => span_err(old(self)@, va, 8, PERM_W) == Some(e)
                    && final(self)@ == old(self)@,
            },
    {
        let buf = crate::endian::le64_to_bytes(v);
        self.write(va, buf.as_slice())
    }

    /// Write a little-endian 128-bit word.
    pub fn write_u128(&mut self, va: u64, v: u128) -> (r: Result<(), MmuError>)
        requires
            old(self).inv(),
            va as int + 16 <= u64::MAX as int + 1,
        ensures
            final(self).inv(),
            match r {
                Ok(()) => span_err(old(self)@, va, 16, PERM_W) is None
                    && mem_written(old(self)@, final(self)@, va, crate::endian::le128_bytes(v)),
                Err(e) => span_err(old(self)@, va, 16, PERM_W) == Some(e)
                    && final(self)@ == old(self)@,
            },
    {
        let buf = crate::endian::le128_to_bytes(v);
        self.write(va, buf.as_slice())
    }
}

impl Default for MMU {
    /// An empty address space.
    fn default() -> (r: MMU)
        ensures
            r.inv(),
            r@ == Map::<u64, Page>::empty(),
    {
        MMU::new()
    }
}

/// A fresh page of `PAGE_SIZE` zero bytes.
fn zero_page() -> (v: Vec<u8>)
    ensures
        v@ =~= Seq::new(PAGE_SIZE as nat, |j: int| 0u8),
{
    let mut v: Vec<u8> = Vec::new();
    let mut i: u64 = 0;
    while i < PAGE_SIZE
        invariant
            i <= PAGE_SIZE,
            v@.len() == i,
            forall|j: int| 0 <= j < i ==> v@[j] == 0u8,
        decreases PAGE_SIZE - i,
    {
        v.push(0u8);
        i += 1;
    }
    v
}

/// Page numbers drawn from an in-bounds, page-aligned range stay below
/// `PAGE_NUM_LIMIT`, and the corresponding page bases do not overflow.
proof fn lemma_page_range_bound(base: u64, length: u64, j: int)
    requires
        base % PAGE_SIZE == 0,
        length % PAGE_SIZE == 0,
        base as int + length as int <= u64::MAX as int + 1,
        0 <= j < length / PAGE_SIZE,
    ensures
        base / PAGE_SIZE + j < PAGE_NUM_LIMIT,
        (base / PAGE_SIZE + j) * PAGE_SIZE <= u64::MAX as int + 1 - PAGE_SIZE,
        base / PAGE_SIZE + j <= u64::MAX,
{
    vstd::arithmetic::div_mod::lemma_fundamental_div_mod(base as int, PAGE_SIZE as int);
    vstd::arithmetic::div_mod::lemma_fundamental_div_mod(length as int, PAGE_SIZE as int);
}

/// If the bytes at offsets `[0, i)` of a span all pass the permission check,
/// the span's error scan reduces to the scan of the remaining suffix.
proof fn lemma_span_err_prefix(m: Map<u64, Page>, va: u64, len: int, perm: u8, i: int)
    requires
        0 <= i <= len,
        va as int + len <= u64::MAX as int + 1,
        forall|j: int| 0 <= j < i ==> mem_has(m, #[trigger] ((va + j) as u64), perm),
    ensures
        span_err(m, va, len, perm) == span_err(m, ((va + i) as u64), len - i, perm),
    decreases i,
{
    if i > 0 {
        assert(mem_has(m, (va + 0) as u64, perm));
        assert(span_err(m, va, len, perm) == span_err(m, ((va + 1) as u64), len - 1, perm));
        let va1 = (va + 1) as u64;
        assert forall|j: int| 0 <= j < i - 1 implies mem_has(m, #[trigger] ((va1 + j) as u64), perm) by {
            assert((va1 + j) as u64 == (va + (j + 1)) as u64);
        }
        lemma_span_err_prefix(m, va1, len - 1, perm, i - 1);
        assert((va1 + (i - 1)) as u64 == (va + i) as u64);
    }
}

/// `w` and `a` lie on the same page: either they are the same address or
/// their intra-page offsets differ.
proof fn lemma_va_eq_or_off(w: u64, a: u64)
    requires
        page_num(w) == page_num(a),
    ensures
        w == a || page_off(w) != page_off(a),
{
    if page_off(w) == page_off(a) {
        lemma_va_eq(w, a);
    }
}

/// A range none of whose pages was found mapped has no first mapped page.
proof fn lemma_first_mapped_none(m: Map<u64, Page>, pn0: u64, count: u64)
    requires
        pn0 as int + count <= u64::MAX as int + 1,
        forall|k: u64| pn0 <= k < pn0 + count ==> !(#[trigger] m.contains_key(k)),
    ensures
        first_mapped_page(m, pn0, count) is None,
    decreases count,
{
    if count > 0 {
        assert(!m.contains_key(pn0));
        lemma_first_mapped_none(m, (pn0 + 1) as u64, (count - 1) as u64);
    }
}

/// A range all of whose pages were found mapped has no first unmapped page.
proof fn lemma_first_unmapped_none(m: Map<u64, Page>, pn0: u64, count: u64)
    requires
        pn0 as int + count <= u64::MAX as int + 1,
        forall|k: u64| pn0 <= k < pn0 + count ==> #[trigger] m.contains_key(k),
    ensures
        first_unmapped_page(m, pn0, count) is None,
    decreases count,
{
    if count > 0 {
        assert(m.contains_key(pn0));
        lemma_first_unmapped_none(m, (pn0 + 1) as u64, (count - 1) as u64);
    }
}

/// Every mapped page holds exactly `PAGE_SIZE` bytes.
pub proof fn lemma_mapped_page_size(m: MMU, pn: u64)
    requires
        m.inv(),
        m@.contains_key(pn),
    ensures
        m@[pn].bytes@.len() == PAGE_SIZE,
{
}

/// Writing a span and then reading it back yields exactly the written bytes,
/// provided the span stays on pages carrying both R and W.
pub proof fn lemma_write_read_round_trip(
    m0: Map<u64, Page>,
    m1: Map<u64, Page>,
    va: u64,
    data: Seq<u8>,
)
    requires
        va as int + data.len() <= u64::MAX as int + 1,
        span_ok(m0, va, data.len() as int, PERM_RW),
        mem_written(m0, m1, va, data),
    ensures
        span_err(m1, va, data.len() as int, PERM_R) is None,
        mem_read_seq(m1, va, data.len() as int) =~= data,
{
    assert forall|j: int| 0 <= j < data.len()
        implies mem_has(m1, #[trigger] ((va + j) as u64), PERM_R) by {
        let w = (va + j) as u64;
        assert(mem_has(m0, w, PERM_RW));
        let p = m0[page_num(w)].perms;
        assert(p & 3u8 == 3u8 ==> p & 1u8 == 1u8) by (bit_vector);
    }
    lemma_span_ok_err_none(m1, va, data.len() as int, PERM_R);
}

/// A span every byte of which passes the permission check reports no error.
proof fn lemma_span_ok_err_none(m: Map<u64, Page>, va: u64, len: int, perm: u8)
    requires
        0 <= len,
        va as int + len <= u64::MAX as int + 1,
        span_ok(m, va, len, perm),
    ensures
        span_err(m, va, len, perm) is None,
{
    lemma_span_err_prefix(m, va, len, perm, len);
}



/// A found first-mapped page lies in the scanned range and is mapped.
pub proof fn lemma_first_mapped_some(m: Map<u64, Page>, pn0: u64, count: u64, p: u64)
    requires
        pn0 as int + count <= u64::MAX as int + 1,
        first_mapped_page(m, pn0, count) == Some(p),
    ensures
        m.contains_key(p),
        pn0 <= p < pn0 + count,
    decreases count,
{
    if count > 0 {
        if m.contains_key(pn0) {
        } else {
            lemma_first_mapped_some(m, (pn0 + 1) as u64, (count - 1) as u64, p);
        }
    }
}

/// A found first-unmapped page lies in the scanned range and is absent.
pub proof fn lemma_first_unmapped_some(m: Map<u64, Page>, pn0: u64, count: u64, p: u64)
    requires
        pn0 as int + count <= u64::MAX as int + 1,
        first_unmapped_page(m, pn0, count) == Some(p),
    ensures
        !m.contains_key(p),
        pn0 <= p < pn0 + count,
    decreases count,
{
    if count > 0 {
        if !m.contains_key(pn0) {
        } else {
            lemma_first_unmapped_some(m, (pn0 + 1) as u64, (count - 1) as u64, p);
        }
    }
}

/// Below an aligned bound, the page number stays below the bound's page
/// number; at or above an aligned base, it stays at or above the base's.
pub proof fn lemma_page_num_bounds(va: u64, a: u64, b: u64)
    requires
        a % PAGE_SIZE == 0,
        b % PAGE_SIZE == 0,
    ensures
        a <= va ==> page_num(a) <= page_num(va),
        va < b ==> page_num(va) < page_num(b),
{
    if a <= va {
        vstd::arithmetic::div_mod::lemma_div_is_ordered(a as int, va as int, PAGE_SIZE as int);
    }
    if va < b {
        lemma_va_split(va);
        lemma_va_split(b);
        if page_num(va) >= page_num(b) {
            vstd::arithmetic::div_mod::lemma_div_is_ordered(b as int, va as int, PAGE_SIZE as int);
            assert(page_num(va) == page_num(b));
            assert(va >= page_num(b) * PAGE_SIZE + 0);
            assert(false);
        }
    }
}

/// The page holding an address inside one aligned page starting at `pa`.
pub proof fn lemma_page_of_window(va: u64, pa: u64)
    requires
        pa % PAGE_SIZE == 0,
        pa <= va,
        va < pa + PAGE_SIZE,
    ensures
        page_num(va) == pa / PAGE_SIZE,
        page_off(va) == va - pa,
{
    vstd::arithmetic::div_mod::lemma_fundamental_div_mod(pa as int, PAGE_SIZE as int);
    vstd::arithmetic::div_mod::lemma_fundamental_div_mod_converse(
        va as int, PAGE_SIZE as int, (pa / PAGE_SIZE) as int, va - pa);
}

/// Subtracting aligned values commutes with division by the page size.
pub proof fn lemma_aligned_sub_div(a: u64, b: u64)
    requires
        a % PAGE_SIZE == 0,
        b % PAGE_SIZE == 0,
        a <= b,
    ensures
        (b - a) as u64 % PAGE_SIZE == 0,
        ((b - a) as u64 / PAGE_SIZE) as int == b / PAGE_SIZE - a / PAGE_SIZE,
{
    lemma_va_split(a);
    lemma_va_split(b);
    vstd::arithmetic::div_mod::lemma_fundamental_div_mod_converse(
        b as int - a as int, PAGE_SIZE as int, (b / PAGE_SIZE - a / PAGE_SIZE) as int, 0);
}

} // verus!
