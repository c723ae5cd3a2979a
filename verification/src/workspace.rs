use vstd::prelude::*;

use std::collections::VecDeque;

use crate::endian::{le16_val, le32_val, le64_val, le16_of_bytes, le32_of_bytes, le64_of_bytes};
use crate::mmu::{PERM_RWX};
use crate::{Arch, RVA, VA};

verus! {

broadcast use vstd::string::group_string_axioms;

/// Errors surfaced by the workspace byte-reader collaborators.
#[derive(Clone, Copy, PartialEq, Eq, Structural, Debug)]
pub enum WorkspaceError {
    /// The given buffer is not supported (arch/plat/file format).
    NotSupported,
    /// The given address is not mapped.
    InvalidAddress,
    /// The requested region runs beyond the matching section.
    BufferOverrun,
}

/// A queued analysis request.
#[derive(Clone, Copy, PartialEq, Eq, Structural, Debug)]
pub enum AnalysisCommand {
    MakeInsn(RVA),
}

/// The loaders the library ships: raw shellcode at base zero, in either
/// architecture.  File-format loaders are outside collaborators.
#[derive(Clone, Copy, PartialEq, Eq, Structural, Debug)]
pub enum Loader {
    Shellcode32,
    Shellcode64,
}

/// One loaded section: its relative address, its bytes, its permission
/// bits, and its name.
#[derive(Clone, Debug)]
pub struct WsSection {
    pub addr: RVA,
    pub buf: Vec<u8>,
    pub perms: u8,
    pub name: String,
}

/// A module as a loader delivers it to the workspace: a base address and a
/// section list.
#[derive(Clone, Debug)]
pub struct LoadedModule {
    pub base_address: VA,
    pub sections: Vec<WsSection>,
}

/// Does the section hold the byte at `rva`?
pub open spec fn sec_contains(s: WsSection, rva: RVA) -> bool {
    s.addr <= rva && (rva as int) < s.addr as int + s.buf@.len()
}

/// The index of the first section holding `rva`, scanning in order.
pub open spec fn first_sec(sections: Seq<WsSection>, rva: RVA) -> Option<int>
    decreases sections.len(),
{
    if sections.len() == 0 {
        None
    } else if sec_contains(sections[0], rva) {
        Some(0)
    } else {
        match first_sec(sections.skip(1), rva) {
            None => None,
            Some(i) => Some(i + 1),
        }
    }
}

impl Loader {
    /// The architecture this loader assumes.
    pub open spec fn spec_arch(self) -> Arch {
        match self {
            Loader::Shellcode32 => Arch::X32,
            Loader::Shellcode64 => Arch::X64,
        }
    }

    /// The architecture this loader assumes.
    pub fn arch(&self) -> (r: Arch)
        ensures
            r == self.spec_arch(),
    {
        match self {
            Loader::Shellcode32 => Arch::X32,
            Loader::Shellcode64 => Arch::X64,
        }
    }

    /// The loader's display name.
    pub fn get_name(&self) -> (r: String)
        ensures
            (*self == Loader::Shellcode32 ==> r@ == "Windows/32/Raw"@),
            (*self == Loader::Shellcode64 ==> r@ == "Windows/64/Raw"@),
    {
        match self {
            Loader::Shellcode32 => "Windows/32/Raw".to_string(),
            Loader::Shellcode64 => "Windows/64/Raw".to_string(),
        }
    }

    /// Treat the whole buffer as one raw section at base zero.
    pub fn load(&self, buf: &Vec<u8>) -> (r: Result<LoadedModule, WorkspaceError>)
        ensures
            match r {
                Ok(m) => {
                    &&& m.base_address == 0u64
                    &&& m.sections@.len() == 1
                    &&& m.sections@[0].addr == 0u64
                    &&& m.sections@[0].buf@ == buf@
                    &&& m.sections@[0].perms == PERM_RWX
                    &&& m.sections@[0].name@ == "raw"@
                },
                Err(_) => false,
            },
    {
        let mut sections: Vec<WsSection> = Vec::new();
        sections.push(WsSection {
            addr: 0u64,
            buf: buf.clone(),
            perms: PERM_RWX,
            name: "raw".to_string(),
        });
        Ok(LoadedModule { base_address: 0u64, sections })
    }
}

/// Builder configuration for a workspace: the file's name, its raw bytes,
/// and an optional loader override.
pub struct WorkspaceBuilder {
    pub filename: String,
    pub buf: Vec<u8>,
    pub loader: Option<Loader>,
}

impl WorkspaceBuilder {
    /// Override the default loader picker with the given loader.
    pub fn with_loader(self, loader: Loader) -> (r: WorkspaceBuilder)
        ensures
            r.filename == self.filename,
            r.buf == self.buf,
            r.loader == Some(loader),
    {
        WorkspaceBuilder { loader: Some(loader), ..self }
    }

    /// Construct a workspace with this builder configuration: run the
    /// chosen loader (the 64-bit raw loader when none was chosen) and start
    /// with an empty analysis queue.
    pub fn load(self) -> (r: Result<Workspace, WorkspaceError>)
        ensures
            match r {
                Ok(ws) => {
                    &&& ws.filename == self.filename
                    &&& ws.buf == self.buf
                    &&& ws.loader == (match self.loader {
                        Some(l) => l,
                        None => Loader::Shellcode64,
                    })
                    &&& ws.arch == ws.loader.spec_arch()
                    &&& ws.module.base_address == 0u64
                    &&& ws.module.sections@.len() == 1
                    &&& ws.module.sections@[0].addr == 0u64
                    &&& ws.module.sections@[0].buf@ == self.buf@
                    &&& ws.module.sections@[0].perms == PERM_RWX
                    &&& ws.analysis_queue@ =~= Seq::<AnalysisCommand>::empty()
                },
                Err(_) => false,
            },
    {
        let ldr = match self.loader {
            Some(l) => l,
            None => Loader::Shellcode64,
        };
        let module = match ldr.load(&self.buf) {
            Ok(m) => m,
            Err(e) => {
                return Err(e);
            },
        };
        let arch = ldr.arch();
        Ok(Workspace {
            filename: self.filename,
            buf: self.buf,
            loader: ldr,
            arch,
            module,
            analysis_queue: VecDeque::new(),
        })
    }
}

/// An analysis workspace over one loaded module: the raw file, the loader
/// that recognised it, the loaded section list, and a queue of pending
/// analysis commands.
pub struct Workspace {
    /// Name or source of the file.
    pub filename: String,
    /// Raw bytes of the file.
    pub buf: Vec<u8>,
    pub loader: Loader,
    pub arch: Arch,
    pub module: LoadedModule,
    pub analysis_queue: VecDeque<AnalysisCommand>,
}

impl Workspace {
    /// The queued analysis commands, oldest first.
    pub open spec fn queue(self) -> Seq<AnalysisCommand> {
        self.analysis_queue@
    }

    /// Create a builder over the given bytes.
    pub fn from_bytes(filename: &str, buf: &[u8]) -> (r: WorkspaceBuilder)
        ensures
            r.filename@ == filename@,
            r.buf@ == buf@,
            r.loader is None,
    {
        WorkspaceBuilder {
            filename: filename.to_string(),
            buf: vstd::slice::slice_to_vec(buf),
            loader: None,
        }
    }

    /// Read `length` bytes at `rva` out of the first section holding that
    /// address.  `InvalidAddress` when no section holds `rva`;
    /// `BufferOverrun` when the request runs beyond that section's bytes.
    pub fn read_bytes(&self, rva: RVA, length: usize) -> (r: Result<Vec<u8>, WorkspaceError>)
        ensures
            match r {
                Ok(out) => out@.len() == length && (first_sec(self.module.sections@, rva)
                    matches Some(i) && {
                    let s = self.module.sections@[i];
                    &&& 0 <= i < self.module.sections@.len()
                    &&& s.addr <= rva
                    &&& rva - s.addr + length <= s.buf@.len()
                    &&& out@ =~= s.buf@.subrange(rva - s.addr, rva - s.addr + length)
                }),
                Err(WorkspaceError::InvalidAddress) => first_sec(self.module.sections@, rva)
                    is None,
                Err(WorkspaceError::BufferOverrun) => first_sec(self.module.sections@, rva)
                    matches Some(i) && self.module.sections@[i].buf@.len()
                    < rva - self.module.sections@[i].addr + length,
                Err(_) => false,
            },
    {
        let n = self.module.sections.len();
        proof {
            assert(self.module.sections@.skip(0) =~= self.module.sections@);
        }
        let mut i: usize = 0;
        while i < n
            invariant
                n == self.module.sections@.len(),
                i <= n,
                forall|k: int| 0 <= k < i ==> !sec_contains(#[trigger] self.module.sections@[k], rva),
                first_sec(self.module.sections@, rva)
                    == (match first_sec(self.module.sections@.skip(i as int), rva) {
                    None => None::<int>,
                    Some(j) => Some(j + i),
                }),
            decreases n - i,
        {
            let s = &self.module.sections[i];
            let in_sec = s.addr <= rva && (rva - s.addr) < s.buf.len() as u64;
            proof {
                reveal_with_fuel(first_sec, 2);
                assert(self.module.sections@.skip(i as int)[0] == self.module.sections@[i as int]);
                assert(self.module.sections@.skip(i as int).skip(1)
                    =~= self.module.sections@.skip(i as int + 1));
            }
            if in_sec {
                let offset = rva - s.addr;
                let off = offset as usize;
                if length > s.buf.len() - off {
                    return Err(WorkspaceError::BufferOverrun);
                }
                let mut out: Vec<u8> = Vec::new();
                let mut k: usize = 0;
                while k < length
                    invariant
                        k <= length,
                        out@.len() == k,
                        off + length <= usize::MAX,
                        off + length <= s.buf@.len(),
                        *s == self.module.sections@[i as int],
                        i < self.module.sections@.len(),
                        sec_contains(self.module.sections@[i as int], rva),
                        first_sec(self.module.sections@, rva) == Some(i as int),
                        off == rva - s.addr,
                        forall|t: int| 0 <= t < k ==> out@[t] == s.buf@[off + t],
                    decreases length - k,
                {
                    proof {
                        assert(off + k < s.buf@.len());
                    }
                    out.push(s.buf[off + k]);
                    k += 1;
                }
                return Ok(out);
            }
            i += 1;
        }
        proof {
            reveal_with_fuel(first_sec, 1);
            assert(self.module.sections@.skip(n as int).len() == 0);
        }
        Err(WorkspaceError::InvalidAddress)
    }

    /// Read one byte at `rva`.  Errors as `read_bytes`.
    pub fn read_u8(&self, rva: RVA) -> (r: Result<u8, WorkspaceError>)
        ensures
            match r {
                Ok(v) => first_sec(self.module.sections@, rva) matches Some(i) && ({
                    let s = self.module.sections@[i];
                    v == s.buf@[rva - s.addr] && rva - s.addr + 1 <= s.buf@.len()
                }),
                Err(e) => self.read_err_witness(rva, 1, e),
            },
    {
        match self.read_bytes(rva, 1) {
            Ok(b) => Ok(b[0]),
            Err(e) => Err(e),
        }
    }

    /// The error cases the typed readers inherit from `read_bytes`.
    pub open spec fn read_err_witness(self, rva: RVA, length: int, e: WorkspaceError) -> bool {
        match e {
            WorkspaceError::InvalidAddress => first_sec(self.module.sections@, rva) is None,
            WorkspaceError::BufferOverrun => first_sec(self.module.sections@, rva) matches Some(i)
                && self.module.sections@[i].buf@.len() < rva - self.module.sections@[i].addr
                + length,
            _ => false,
        }
    }

    /// Read a little-endian 16-bit word at `rva`.  Errors as `read_bytes`.
    pub fn read_u16(&self, rva: RVA) -> (r: Result<u16, WorkspaceError>)
        ensures
            match r {
                Ok(v) => first_sec(self.module.sections@, rva) matches Some(i) && ({
                    let s = self.module.sections@[i];
                    v == le16_val(s.buf@.subrange(rva - s.addr, rva - s.addr + 2)) && rva - s.addr
                        + 2 <= s.buf@.len()
                }),
                Err(e) => self.read_err_witness(rva, 2, e),
            },
    {
        match self.read_bytes(rva, 2) {
            Ok(b) => Ok(le16_of_bytes(&b)),
            Err(e) => Err(e),
        }
    }

    /// Read a little-endian 32-bit word at `rva`.  Errors as `read_bytes`.
    pub fn read_u32(&self, rva: RVA) -> (r: Result<u32, WorkspaceError>)
        ensures
            match r {
                Ok(v) => first_sec(self.module.sections@, rva) matches Some(i) && ({
                    let s = self.module.sections@[i];
                    v == le32_val(s.buf@.subrange(rva - s.addr, rva - s.addr + 4)) && rva - s.addr
                        + 4 <= s.buf@.len()
                }),
                Err(e) => self.read_err_witness(rva, 4, e),
            },
    {
        match self.read_bytes(rva, 4) {
            Ok(b) => Ok(le32_of_bytes(&b)),
            Err(e) => Err(e),
        }
    }

    /// Read a little-endian 64-bit word at `rva`.  Errors as `read_bytes`.
    pub fn read_u64(&self, rva: RVA) -> (r: Result<u64, WorkspaceError>)
        ensures
            match r {
                Ok(v) => first_sec(self.module.sections@, rva) matches Some(i) && ({
                    let s = self.module.sections@[i];
                    v == le64_val(s.buf@.subrange(rva - s.addr, rva - s.addr + 8)) && rva - s.addr
                        + 8 <= s.buf@.len()
                }),
                Err(e) => self.read_err_witness(rva, 8, e),
            },
    {
        match self.read_bytes(rva, 8) {
            Ok(b) => Ok(le64_of_bytes(&b)),
            Err(e) => Err(e),
        }
    }

    /// Read an RVA-sized word at `rva`: 32 bits in X32 (zero-extended), 64
    /// bits in X64.  Errors as `read_bytes`.
    pub fn read_rva(&self, rva: RVA) -> (r: Result<RVA, WorkspaceError>)
        ensures
            match r {
                Ok(v) => first_sec(self.module.sections@, rva) matches Some(i) && ({
                    let s = self.module.sections@[i];
                    match self.arch {
                        Arch::X32 => v == le32_val(
                            s.buf@.subrange(rva - s.addr, rva - s.addr + 4),
                        ) as u64,
                        Arch::X64 => v == le64_val(
                            s.buf@.subrange(rva - s.addr, rva - s.addr + 8),
                        ),
                    }
                }),
                Err(e) => self.read_err_witness(
                    rva,
                    match self.arch {
                        Arch::X32 => 4,
                        Arch::X64 => 8,
                    },
                    e,
                ),
            },
    {
        match self.arch {
            Arch::X32 => match self.read_u32(rva) {
                Ok(v) => Ok(v as u64),
                Err(e) => Err(e),
            },
            Arch::X64 => self.read_u64(rva),
        }
    }

    /// Read a VA-sized word at `rva`.  VAs are represented as 64-bit in both
    /// architectures, so this is the same read as `read_rva`.
    pub fn read_va(&self, rva: RVA) -> (r: Result<VA, WorkspaceError>)
        ensures
            match r {
                Ok(v) => first_sec(self.module.sections@, rva) matches Some(i) && ({
                    let s = self.module.sections@[i];
                    match self.arch {
                        Arch::X32 => v == le32_val(
                            s.buf@.subrange(rva - s.addr, rva - s.addr + 4),
                        ) as u64,
                        Arch::X64 => v == le64_val(
                            s.buf@.subrange(rva - s.addr, rva - s.addr + 8),
                        ),
                    }
                }),
                Err(e) => self.read_err_witness(
                    rva,
                    match self.arch {
                        Arch::X32 => 4,
                        Arch::X64 => 8,
                    },
                    e,
                ),
            },
    {
        self.read_rva(rva)
    }

    /// Is every byte of `[rva, rva + length)` inside some section?
    pub fn probe(&self, rva: RVA, length: usize) -> (r: bool)
        requires
            rva as int + length as int <= u64::MAX as int + 1,
        ensures
            r == (forall|j: int| 0 <= j < length
                ==> (#[trigger] first_sec(self.module.sections@, ((rva + j) as u64))) is Some),
    {
        let mut j: usize = 0;
        while j < length
            invariant
                j <= length,
                rva as int + length as int <= u64::MAX as int + 1,
                forall|k: int| 0 <= k < j
                    ==> (#[trigger] first_sec(self.module.sections@, ((rva + k) as u64))) is Some,
            decreases length - j,
        {
            match self.read_bytes(rva + j as u64, 1) {
                Ok(_) => {},
                Err(WorkspaceError::InvalidAddress) => {
                    proof {
                        assert(first_sec(self.module.sections@, ((rva + j as int) as u64))
                            is None);
                    }
                    return false;
                },
                Err(_) => {},
            }
            j += 1;
        }
        true
    }

    /// Queue an instruction-analysis request at `rva`.
    pub fn make_insn(&mut self, rva: RVA) -> (r: Result<(), WorkspaceError>)
        ensures
            r is Ok,
            final(self).queue() == old(self).queue().push(AnalysisCommand::MakeInsn(rva)),
            final(self).filename == old(self).filename,
            final(self).buf == old(self).buf,
            final(self).loader == old(self).loader,
            final(self).arch == old(self).arch,
            final(self).module == old(self).module,
    {
        self.analysis_queue.push_back(AnalysisCommand::MakeInsn(rva));
        Ok(())
    }

    /// Handle one queued instruction-analysis request.  The instruction
    /// database this feeds is not built yet, so handling is a recorded
    /// no-op.
    fn handle_make_insn(&mut self, rva: RVA) -> (r: Result<(), WorkspaceError>)
        ensures
            r is Ok,
            *final(self) == *old(self),
    {
        let _ = rva;
        Ok(())
    }

    /// Drain the analysis queue, handling each command in order.
    pub fn analyze(&mut self) -> (r: Result<(), WorkspaceError>)
        ensures
            r is Ok,
            final(self).queue() =~= Seq::<AnalysisCommand>::empty(),
            final(self).filename == old(self).filename,
            final(self).buf == old(self).buf,
            final(self).loader == old(self).loader,
            final(self).arch == old(self).arch,
            final(self).module == old(self).module,
    {
        while self.analysis_queue.len() > 0
            invariant
                self.filename == old(self).filename,
                self.buf == old(self).buf,
                self.loader == old(self).loader,
                self.arch == old(self).arch,
                self.module == old(self).module,
            decreases self.analysis_queue@.len(),
        {
            let cmd = match self.analysis_queue.pop_front() {
                Some(c) => c,
                None => {
                    return Ok(());
                },
            };
            match cmd {
                AnalysisCommand::MakeInsn(rva) => {
                    match self.handle_make_insn(rva) {
                        Ok(()) => {},
                        Err(e) => {
                            return Err(e);
                        },
                    }
                },
            }
        }
        Ok(())
    }
}

} // verus!
