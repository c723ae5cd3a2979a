use vstd::prelude::*;

use crate::emu::Emulator;
use crate::mmu::{
    MMU, PAGE_SIZE, PERM_W, Page, mem_byte, mem_has, mem_mapped, mem_perms, page_num,
    lemma_first_mapped_some, lemma_first_unmapped_some, lemma_page_num_bounds,
    lemma_page_of_window, lemma_aligned_sub_div, lemma_va_split,
};
use crate::reg::zeroed;
use crate::{Arch, VA};

verus! {

/// A readable byte store addressable by VA: the module's image, starting at
/// its base address.
#[derive(Clone, Debug)]
pub struct AddressSpace {
    pub base_address: VA,
    pub buf: Vec<u8>,
}

impl AddressSpace {
    /// Does the store hold every byte of `[va, va + len)`?
    pub open spec fn covers(self, va: u64, len: int) -> bool {
        self.base_address <= va && va as int + len <= self.base_address as int + self.buf@.len()
    }

    /// The byte the store holds at `va`.
    pub open spec fn spec_byte(self, va: u64) -> u8 {
        self.buf@[va - self.base_address]
    }

    /// Copy `len` bytes starting at `va`; `None` when the range is not
    /// fully inside the store.
    pub fn read_at(&self, va: u64, len: usize) -> (r: Option<Vec<u8>>)
        requires
            va as int + len as int <= u64::MAX as int + 1,
        ensures
            match r {
                Some(v) => self.covers(va, len as int) && v@.len() == len && (forall|j: int|
                    0 <= j < len ==> v@[j] == self.spec_byte(((va + j) as u64))),
                None => !self.covers(va, len as int),
            },
    {
        if va < self.base_address {
            return None;
        }
        let off = va - self.base_address;
        if off > self.buf.len() as u64 || len as u64 > self.buf.len() as u64 - off {
            return None;
        }
        let off = off as usize;
        let mut out: Vec<u8> = Vec::new();
        let mut j: usize = 0;
        while j < len
            invariant
                j <= len,
                out@.len() == j,
                self.base_address <= va,
                off == va - self.base_address,
                off + len <= usize::MAX,
                off + len <= self.buf@.len(),
                va as int + len <= u64::MAX as int + 1,
                forall|t: int| 0 <= t < j ==> out@[t] == self.buf@[off + t],
            decreases len - j,
        {
            out.push(self.buf[off + j]);
            j += 1;
        }
        proof {
            assert forall|j2: int| 0 <= j2 < len implies out@[j2] == self.spec_byte(
                ((va + j2) as u64),
            ) by {
                assert(out@[j2] == self.buf@[off + j2]);
                assert(((va + j2) as u64) - self.base_address == off + j2);
            }
        }
        Some(out)
    }
}

/// A section declared by the loader: a contiguous VA range with uniform
/// permissions.
#[derive(Clone, Debug)]
pub struct Section {
    pub start: VA,
    pub end: VA,
    pub perms: u8,
    pub name: String,
}

/// A loaded module as the emulator consumes it: the architecture, the
/// declared sections, and the image bytes they are projected from.
#[derive(Clone, Debug)]
pub struct Module {
    pub arch: Arch,
    pub sections: Vec<Section>,
    pub address_space: AddressSpace,
}

/// Pages `pn` of `m1` and `m0` agree: present in one iff in the other, and
/// equal where present.
pub open spec fn pn_untouched(m0: Map<u64, Page>, m1: Map<u64, Page>, pn: u64) -> bool {
    &&& m1.contains_key(pn) <==> m0.contains_key(pn)
    &&& m0.contains_key(pn) ==> m1[pn] == m0[pn]
}

/// The largest page boundary at or below `v`.
pub open spec fn spec_align_down(v: u64) -> u64 {
    ((v / PAGE_SIZE) * PAGE_SIZE) as u64
}

/// The smallest page boundary at or above `v`.
pub open spec fn spec_align_up(v: u64) -> int {
    ((v + PAGE_SIZE - 1) / (PAGE_SIZE as int)) * (PAGE_SIZE as int)
}

impl Module {
    /// One section is usable: a forward range whose aligned span stays
    /// inside the 64-bit space, with its declared bytes inside the image.
    pub open spec fn section_ok(self, i: int) -> bool {
        let s = self.sections@[i];
        &&& s.start <= s.end
        &&& s.end as int <= u64::MAX as int + 1 - PAGE_SIZE
        &&& self.address_space.covers(s.start, s.end - s.start)
    }

    /// The page numbers the aligned span of section `i` occupies.
    pub open spec fn pn_in_section(self, pn: u64, i: int) -> bool {
        let s = self.sections@[i];
        page_num(spec_align_down(s.start)) <= pn && pn < spec_align_up(s.end) / (PAGE_SIZE as int)
    }

    /// A module the emulator can load: every section usable, and the
    /// page-aligned spans of distinct sections disjoint.
    pub open spec fn wf(self) -> bool {
        &&& forall|i: int| 0 <= i < self.sections@.len() ==> self.section_ok(i)
        &&& forall|i: int, j: int| 0 <= i < j < self.sections@.len()
            ==> spec_align_up(self.sections@[i].end) <= spec_align_down(self.sections@[j].start)
                || spec_align_up(self.sections@[j].end) <= spec_align_down(
                self.sections@[i].start,
            )
    }

    /// The byte at `va` is loaded as section `i` demands: its page exists
    /// with the section's permissions, and it holds the image byte inside
    /// the declared range, zero in the aligned padding.
    pub open spec fn va_loaded(self, mem: Map<u64, Page>, i: int, va: u64) -> bool {
        let s = self.sections@[i];
        &&& mem_mapped(mem, va)
        &&& mem_perms(mem, va) == s.perms
        &&& mem_byte(mem, va) == (if s.start <= va && va < s.end {
            self.address_space.spec_byte(va)
        } else {
            0u8
        })
    }

    /// Section `i` is projected into memory: every byte of its aligned span
    /// is loaded as the section demands.
    pub open spec fn section_loaded(self, mem: Map<u64, Page>, i: int) -> bool {
        let s = self.sections@[i];
        forall|va: u64| spec_align_down(s.start) <= va && va < spec_align_up(s.end)
            ==> #[trigger] self.va_loaded(mem, i, va)
    }

    /// A raw byte buffer as a minimal loadable module: one RWX section
    /// holding `code` at the chosen base.
    pub fn shellcode(arch: Arch, base: VA, code: &[u8]) -> (r: Module)
        requires
            base % PAGE_SIZE == 0,
            base as int + code@.len() <= u64::MAX as int + 1 - PAGE_SIZE,
        ensures
            r.wf(),
            r.arch == arch,
            r.address_space.base_address == base,
            r.address_space.buf@ == code@,
            r.sections@.len() == 1,
            r.sections@[0].start == base,
            r.sections@[0].end == base + code@.len(),
            r.sections@[0].perms == crate::mmu::PERM_RWX,
    {
        let mut sections: Vec<Section> = Vec::new();
        sections.push(Section {
            start: base,
            end: base + code.len() as u64,
            perms: crate::mmu::PERM_RWX,
            name: "raw".to_string(),
        });
        Module {
            arch,
            sections,
            address_space: AddressSpace { base_address: base, buf: vstd::slice::slice_to_vec(code) },
        }
    }
}

/// The largest page boundary at or below `v`.
pub fn align_down(v: u64) -> (r: u64)
    ensures
        r == spec_align_down(v),
        r % PAGE_SIZE == 0,
        r <= v,
        v < r + PAGE_SIZE,
        page_num(r) == page_num(v),
{
    proof {
        lemma_va_split(v);
        vstd::arithmetic::div_mod::lemma_fundamental_div_mod_converse(
            ((v / PAGE_SIZE) * PAGE_SIZE) as int, PAGE_SIZE as int, (v / PAGE_SIZE) as int, 0);
    }
    (v / PAGE_SIZE) * PAGE_SIZE
}

/// The smallest page boundary at or above `v`.
pub fn align_up(v: u64) -> (r: u64)
    requires
        v as int <= u64::MAX as int + 1 - PAGE_SIZE,
    ensures
        r == spec_align_up(v),
        r % PAGE_SIZE == 0,
        v <= r,
        r < v + PAGE_SIZE,
{
    proof {
        lemma_align_up_props(v);
        lemma_va_split(v);
    }
    if v % PAGE_SIZE == 0 {
        proof {
            vstd::arithmetic::div_mod::lemma_fundamental_div_mod_converse(
                v + PAGE_SIZE - 1, PAGE_SIZE as int, (v / PAGE_SIZE) as int, PAGE_SIZE - 1);
        }
        v
    } else {
        proof {
            vstd::arithmetic::div_mod::lemma_fundamental_div_mod_converse(
                v + PAGE_SIZE - 1, PAGE_SIZE as int, (v / PAGE_SIZE) as int + 1, v % PAGE_SIZE - 1);
            vstd::arithmetic::div_mod::lemma_fundamental_div_mod_converse(
                ((v / PAGE_SIZE) as int + 1) * (PAGE_SIZE as int), PAGE_SIZE as int, (v / PAGE_SIZE) as int + 1, 0);
        }
        (v / PAGE_SIZE + 1) * PAGE_SIZE
    }
}

/// The aligned upper bound is a page boundary just past `v`.
pub proof fn lemma_align_up_props(v: u64)
    requires
        v as int <= u64::MAX as int + 1 - PAGE_SIZE,
    ensures
        spec_align_up(v) % (PAGE_SIZE as int) == 0,
        v <= spec_align_up(v),
        spec_align_up(v) < v + PAGE_SIZE,
        spec_align_up(v) <= u64::MAX as int + 1 - PAGE_SIZE + PAGE_SIZE,
{
    lemma_va_split(v);
    vstd::arithmetic::div_mod::lemma_fundamental_div_mod(v + PAGE_SIZE - 1, PAGE_SIZE as int);
    let q = (v + PAGE_SIZE - 1) / (PAGE_SIZE as int);
    vstd::arithmetic::div_mod::lemma_fundamental_div_mod_converse(
        q * (PAGE_SIZE as int), PAGE_SIZE as int, q, 0);
}

/// Construct an emulator from a loaded module: project each section into
/// memory in turn.
pub fn from_module(m: &Module) -> (r: Emulator)
    requires
        m.wf(),
    ensures
        r.mem.inv(),
        r.arch == m.arch,
        r.reg == zeroed(),
        forall|i: int| 0 <= i < m.sections@.len() ==> m.section_loaded(r.mem@, i),
        forall|pn: u64| #[trigger] r.mem@.contains_key(pn) ==> exists|i: int|
            0 <= i < m.sections@.len() && m.pn_in_section(pn, i),
{
    let mut emu = Emulator::with_arch(m.arch);
    let n = m.sections.len();
    let mut i: usize = 0;
    while i < n
        invariant
            m.wf(),
            n == m.sections@.len(),
            i <= n,
            emu.mem.inv(),
            emu.arch == m.arch,
            emu.reg == zeroed(),
            forall|k: int| 0 <= k < i ==> m.section_loaded(emu.mem@, k),
            forall|pn: u64| #[trigger] emu.mem@.contains_key(pn) ==> exists|k: int|
                0 <= k < i && m.pn_in_section(pn, k),
        decreases n - i,
    {
        let ghost mem0 = emu.mem@;
        proof {
            assert forall|pn: u64| emu.mem@.contains_key(pn) implies !m.pn_in_section(
                pn,
                i as int,
            ) by {
                let k = choose|k: int| 0 <= k < i && m.pn_in_section(pn, k);
                assert(m.pn_in_section(pn, k));
                lemma_div_pn_disjoint(m, i as int, k, pn);
            }
        }
        load_section(&mut emu.mem, m, i);
        proof {
            assert forall|k: int| 0 <= k < i + 1 implies m.section_loaded(emu.mem@, k) by {
                if k < i {
                    lemma_section_loaded_preserved(m, k, i as int, mem0, emu.mem@);
                }
            }
            assert forall|pn: u64| #[trigger] emu.mem@.contains_key(pn) implies exists|k: int|
                0 <= k < i + 1 && m.pn_in_section(pn, k) by {
                if !m.pn_in_section(pn, i as int) {
                    assert(pn_untouched(mem0, emu.mem@, pn));
                    assert(mem0.contains_key(pn));
                    let k = choose|k: int| 0 <= k < i && m.pn_in_section(pn, k);
                    assert(0 <= k < i + 1 && m.pn_in_section(pn, k));
                }
            }
        }
        i += 1;
    }
    emu
}

/// Project one section into memory: map its aligned span writable, copy its
/// image bytes page by page (zero padding outside the declared range), then
/// drop the span to the section's declared permissions.  Pages outside the
/// span are untouched.
#[verifier::rlimit(100)]
fn load_section(mem: &mut MMU, m: &Module, i: usize)
    requires
        old(mem).inv(),
        m.wf(),
        i < m.sections@.len(),
        forall|pn: u64| #[trigger] old(mem)@.contains_key(pn) ==> !m.pn_in_section(pn, i as int),
    ensures
        final(mem).inv(),
        m.section_loaded(final(mem)@, i as int),
        forall|pn: u64| !m.pn_in_section(pn, i as int) ==> #[trigger] pn_untouched(
            old(mem)@,
            final(mem)@,
            pn,
        ),
        forall|pn: u64| #[trigger] final(mem)@.contains_key(pn) ==> m.pn_in_section(pn, i as int)
            || old(mem)@.contains_key(pn),
{
    let s = &m.sections[i];
    proof {
        assert(m.section_ok(i as int));
    }
    let a_start = align_down(s.start);
    let a_end = align_up(s.end);
    proof {
        lemma_aligned_sub_div(a_start, a_end);
        lemma_va_split(a_start);
        lemma_va_split(a_end);
    }
    let size = a_end - a_start;
    let ghost mem0 = mem@;
    let ghost pn0 = page_num(a_start);
    let ghost pcount = (size / PAGE_SIZE) as u64;
    proof {
        assert(pn0 + pcount == spec_align_up(s.end) / (PAGE_SIZE as int));
        assert(pn0 == page_num(spec_align_down(s.start)));
    }
    match mem.mmap(a_start, size, PERM_W) {
        Ok(()) => {},
        Err(_) => {
            proof {
                match crate::mmu::first_mapped_page(mem0, pn0, pcount) {
                    Some(p) => {
                        lemma_first_mapped_some(mem0, pn0, pcount, p);
                        assert(m.pn_in_section(p, i as int));
                        assert(mem0.contains_key(p));
                    },
                    None => {},
                }
            }
            vstd::pervasive::unreached()
        },
    }
    proof {
        assert forall|va: u64| a_start <= va && va < a_end implies #[trigger] mem_has(
            mem@,
            va,
            PERM_W,
        ) by {
            lemma_page_num_bounds(va, a_start, a_end);
            assert(mem_mapped(mem@, va) && mem_perms(mem@, va) == PERM_W);
            assert(2u8 & 2u8 == 2u8) by (bit_vector);
        }
        assert forall|pn: u64| !(pn0 <= pn < pn0 + pcount) implies #[trigger] pn_untouched(
            mem0,
            mem@,
            pn,
        ) by {
            assert(mem@.contains_key(pn) <==> mem0.contains_key(pn));
            assert(mem0.contains_key(pn) ==> mem@[pn] == mem0[pn]);
        }
    }
    // Copy the image into the fresh pages, one page at a time.
    let mut pa: u64 = a_start;
    while pa < a_end
        invariant
            m.wf(),
            i < m.sections@.len(),
            *s == m.sections@[i as int],
            m.section_ok(i as int),
            mem.inv(),
            a_start == spec_align_down(s.start),
            a_end == spec_align_up(s.end),
            a_start % PAGE_SIZE == 0,
            a_end % PAGE_SIZE == 0,
            a_start <= pa <= a_end,
            pa % PAGE_SIZE == 0,
            pn0 == page_num(a_start),
            pn0 + pcount == spec_align_up(s.end) / (PAGE_SIZE as int),
            forall|va: u64| a_start <= va && va < a_end ==> #[trigger] mem_has(mem@, va, PERM_W),
            forall|va: u64| a_start <= va && va < pa ==> #[trigger] mem_byte(mem@, va) == (
            if s.start <= va && va < s.end {
                m.address_space.spec_byte(va)
            } else {
                0u8
            }),
            forall|pn: u64| !(pn0 <= pn < pn0 + pcount) ==> #[trigger] pn_untouched(
                mem0,
                mem@,
                pn,
            ),
        decreases a_end - pa,
    {
        proof {
            lemma_aligned_sub_div(pa, a_end);
            lemma_page_num_bounds(pa, a_start, a_end);
        }
        let page = build_page(m, i, pa);
        let ghost prev = mem@;
        match mem.write_page(pa, page.as_slice()) {
            Ok(()) => {},
            Err(_) => {
                proof {
                    assert(mem_has(prev, pa, PERM_W));
                    assert(mem_mapped(prev, pa));
                }
                vstd::pervasive::unreached()
            },
        }
        proof {
            let pnp = page_num(pa);
            assert forall|va: u64| a_start <= va && va < pa + PAGE_SIZE implies #[trigger]
                mem_byte(mem@, va) == (if s.start <= va && va < s.end {
                m.address_space.spec_byte(va)
            } else {
                0u8
            }) by {
                let pnv = page_num(va);
                if va < pa {
                    lemma_page_num_bounds(va, a_start, pa);
                    assert(pnv != pnp);
                    assert(mem_has(prev, va, PERM_W));
                    assert(mem_mapped(prev, va));
                    assert(mem@.contains_key(pnv) <==> prev.contains_key(pnv));
                    assert(prev.contains_key(pnv) ==> mem@[pnv] == prev[pnv]);
                    assert(mem_byte(mem@, va) == mem_byte(prev, va));
                } else {
                    lemma_page_of_window(va, pa);
                    assert(pnv == pnp);
                    assert(mem@[pnp].bytes@ == page@);
                    assert(mem_byte(mem@, va) == page@[va - pa]);
                }
            }
            assert forall|va: u64| a_start <= va && va < a_end implies #[trigger] mem_has(
                mem@,
                va,
                PERM_W,
            ) by {
                let pnv = page_num(va);
                assert(mem_has(prev, va, PERM_W));
                if pnv == pnp {
                    assert(mem@.contains_key(pnp));
                    assert(mem@[pnp].perms == prev[pnp].perms);
                } else {
                    assert(mem@.contains_key(pnv) <==> prev.contains_key(pnv));
                    assert(prev.contains_key(pnv) ==> mem@[pnv] == prev[pnv]);
                }
            }
            assert forall|pn: u64| !(pn0 <= pn < pn0 + pcount) implies #[trigger] pn_untouched(
                mem0,
                mem@,
                pn,
            ) by {
                assert(pn_untouched(mem0, prev, pn));
                assert(pn != pnp);
                assert(mem@.contains_key(pn) <==> prev.contains_key(pn));
                assert(prev.contains_key(pn) ==> mem@[pn] == prev[pn]);
            }
        }
        pa = pa + PAGE_SIZE;
    }
    // Apply the section's declared permissions.
    let ghost before_prot = mem@;
    match mem.mprotect(a_start, size, s.perms) {
        Ok(()) => {},
        Err(_) => {
            proof {
                match crate::mmu::first_unmapped_page(before_prot, pn0, pcount) {
                    Some(p) => {
                        lemma_first_unmapped_some(before_prot, pn0, pcount, p);
                        let w = (p * PAGE_SIZE) as u64;
                        assert(a_start <= w < a_end);
                        vstd::arithmetic::div_mod::lemma_fundamental_div_mod_converse(
                            w as int, PAGE_SIZE as int, p as int, 0);
                        assert(page_num(w) == p);
                        assert(mem_has(before_prot, w, PERM_W));
                        assert(mem_mapped(before_prot, w));
                    },
                    None => {},
                }
            }
            vstd::pervasive::unreached()
        },
    }
    proof {
        assert forall|va: u64| spec_align_down(m.sections@[i as int].start) <= va && va
            < spec_align_up(m.sections@[i as int].end) implies #[trigger] m.va_loaded(
            mem@,
            i as int,
            va,
        ) by {
            lemma_page_num_bounds(va, a_start, a_end);
            let pnv = page_num(va);
            assert(pn0 <= pnv < pn0 + pcount);
            assert(mem_has(before_prot, va, PERM_W));
            assert(mem_mapped(before_prot, va));
            assert(mem@.contains_key(pnv));
            assert(mem@[pnv].perms == s.perms);
            assert(mem@[pnv].bytes@ == before_prot[pnv].bytes@);
            assert(mem_byte(mem@, va) == mem_byte(before_prot, va));
            assert(mem_byte(before_prot, va) == (if s.start <= va && va < s.end {
                m.address_space.spec_byte(va)
            } else {
                0u8
            }));
        }
        assert forall|pn: u64| !m.pn_in_section(pn, i as int) implies #[trigger] pn_untouched(
            mem0,
            mem@,
            pn,
        ) by {
            assert(!(pn0 <= pn < pn0 + pcount));
            assert(pn_untouched(mem0, before_prot, pn));
            assert(mem@.contains_key(pn) <==> before_prot.contains_key(pn));
            assert(before_prot.contains_key(pn) ==> mem@[pn] == before_prot[pn]);
        }
        assert forall|pn: u64| #[trigger] mem@.contains_key(pn) implies m.pn_in_section(
            pn,
            i as int,
        ) || mem0.contains_key(pn) by {
            if !m.pn_in_section(pn, i as int) {
                assert(pn_untouched(mem0, mem@, pn));
            }
        }
    }
}

/// Loading one section leaves every other well-formed section's pages, and
/// so its loaded claim, untouched.
proof fn lemma_section_loaded_preserved(
    m: &Module,
    k: int,
    i: int,
    mem0: Map<u64, Page>,
    mem1: Map<u64, Page>,
)
    requires
        m.wf(),
        0 <= i < m.sections@.len(),
        0 <= k < m.sections@.len(),
        k != i,
        m.section_loaded(mem0, k),
        forall|pn: u64| !m.pn_in_section(pn, i) ==> #[trigger] pn_untouched(mem0, mem1, pn),
    ensures
        m.section_loaded(mem1, k),
{
    let sk = m.sections@[k];
    assert(m.section_ok(k));
    assert forall|va: u64| spec_align_down(sk.start) <= va && va < spec_align_up(sk.end)
        implies #[trigger] m.va_loaded(mem1, k, va) by {
        lemma_align_up_props(sk.end);
        lemma_align_down_div(sk.start);
        lemma_page_num_bounds(va, spec_align_down(sk.start), spec_align_down(sk.start));
        lemma_va_lt_aligned_div_raw(va, spec_align_up(sk.end));
        let pn = page_num(va);
        assert(m.pn_in_section(pn, k));
        lemma_div_pn_disjoint(m, i, k, pn);
        assert(m.va_loaded(mem0, k, va));
        assert(mem_mapped(mem0, va));
        assert(pn_untouched(mem0, mem1, pn));
        assert(mem1.contains_key(pn) && mem1[pn] == mem0[pn]);
    }
}

/// Aligning down and then dividing gives the address's own page number.
proof fn lemma_align_down_div(v: u64)
    ensures
        page_num(spec_align_down(v)) == page_num(v),
        spec_align_down(v) % PAGE_SIZE == 0,
{
    lemma_va_split(v);
    vstd::arithmetic::div_mod::lemma_fundamental_div_mod_converse(
        ((v / PAGE_SIZE) * PAGE_SIZE) as int, PAGE_SIZE as int, (v / PAGE_SIZE) as int, 0);
}

/// Below an aligned integer bound, the page number stays strictly below the
/// bound's page count.
proof fn lemma_va_lt_aligned_div_raw(va: u64, b: int)
    requires
        b % (PAGE_SIZE as int) == 0,
        va < b,
    ensures
        page_num(va) < b / (PAGE_SIZE as int),
{
    lemma_va_split(va);
    if page_num(va) >= b / (PAGE_SIZE as int) {
        vstd::arithmetic::div_mod::lemma_fundamental_div_mod(b, PAGE_SIZE as int);
        assert(b == (PAGE_SIZE as int) * (b / (PAGE_SIZE as int)));
        assert(va >= page_num(va) * PAGE_SIZE) by {
            lemma_va_split(va);
        }
        assert(va as int >= b) by (nonlinear_arith)
            requires
                page_num(va) >= b / (PAGE_SIZE as int),
                b == (PAGE_SIZE as int) * (b / (PAGE_SIZE as int)),
                va >= page_num(va) * PAGE_SIZE,
                PAGE_SIZE > 0,
        ;
        assert(false);
    }
}

/// A page of section `k`'s span is not a page of section `i`'s span:
/// distinct well-formed sections occupy disjoint page ranges.
proof fn lemma_div_pn_disjoint(m: &Module, i: int, k: int, pn: u64)
    requires
        m.wf(),
        0 <= i < m.sections@.len(),
        0 <= k < m.sections@.len(),
        k != i,
        m.pn_in_section(pn, k),
    ensures
        !m.pn_in_section(pn, i),
{
    if m.pn_in_section(pn, i) {
        let a = if k < i { k } else { i };
        let b = if k < i { i } else { k };
        assert(spec_align_up(m.sections@[a].end) <= spec_align_down(m.sections@[b].start)
            || spec_align_up(m.sections@[b].end) <= spec_align_down(m.sections@[a].start));
        if spec_align_up(m.sections@[a].end) <= spec_align_down(m.sections@[b].start) {
            vstd::arithmetic::div_mod::lemma_div_is_ordered(
                spec_align_up(m.sections@[a].end),
                spec_align_down(m.sections@[b].start) as int,
                PAGE_SIZE as int,
            );
            assert(pn < spec_align_up(m.sections@[a].end) / (PAGE_SIZE as int));
            assert(page_num(spec_align_down(m.sections@[b].start)) <= pn);
        } else {
            vstd::arithmetic::div_mod::lemma_div_is_ordered(
                spec_align_up(m.sections@[b].end),
                spec_align_down(m.sections@[a].start) as int,
                PAGE_SIZE as int,
            );
            assert(pn < spec_align_up(m.sections@[b].end) / (PAGE_SIZE as int));
            assert(page_num(spec_align_down(m.sections@[a].start)) <= pn);
        }
        assert(false);
    }
}

/// The bytes one page of a section's aligned span should hold: image bytes
/// inside the declared range, zero padding outside it.
fn build_page(m: &Module, i: usize, pa: u64) -> (r: Vec<u8>)
    requires
        m.wf(),
        i < m.sections@.len(),
        pa % PAGE_SIZE == 0,
        spec_align_down(m.sections@[i as int].start) <= pa,
        pa as int + PAGE_SIZE <= spec_align_up(m.sections@[i as int].end),
    ensures
        r@.len() == PAGE_SIZE,
        forall|off: int| 0 <= off < PAGE_SIZE ==> r@[off] == (if m.sections@[i as int].start
            <= pa + off && pa + off < m.sections@[i as int].end {
            m.address_space.spec_byte(((pa + off) as u64))
        } else {
            0u8
        }),
{
    let s = &m.sections[i];
    proof {
        assert(m.section_ok(i as int));
    }
    let base = m.address_space.base_address;
    let blen = m.address_space.buf.len();
    let mut out: Vec<u8> = Vec::new();
    let mut off: u64 = 0;
    while off < PAGE_SIZE
        invariant
            m.wf(),
            i < m.sections@.len(),
            *s == m.sections@[i as int],
            m.section_ok(i as int),
            base == m.address_space.base_address,
            blen == m.address_space.buf@.len(),
            pa as int + PAGE_SIZE <= spec_align_up(m.sections@[i as int].end),
            spec_align_up(m.sections@[i as int].end) <= u64::MAX as int + 1,
            off <= PAGE_SIZE,
            out@.len() == off,
            forall|t: int| 0 <= t < off ==> out@[t] == (if m.sections@[i as int].start <= pa + t
                && pa + t < m.sections@[i as int].end {
                m.address_space.spec_byte(((pa + t) as u64))
            } else {
                0u8
            }),
        decreases PAGE_SIZE - off,
    {
        let va = pa + off;
        if s.start <= va && va < s.end {
            out.push(m.address_space.buf[(va - base) as usize]);
        } else {
            out.push(0u8);
        }
        off += 1;
    }
    out
}

} // verus!
