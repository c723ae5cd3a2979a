use vstd::prelude::*;

use std::collections::{HashMap, HashSet};
use std::collections::VecDeque;

use crate::emu::{Insn, Mnemonic, OperandKind};
use crate::VA;

verus! {

broadcast use vstd::std_specs::hash::group_hash_axioms;

/// Does the given instruction have a fallthrough flow to its byte-immediate
/// successor?
pub open spec fn spec_fallthrough(m: Mnemonic) -> bool {
    match m {
        Mnemonic::Jmp => false,
        Mnemonic::Ret => false,
        Mnemonic::Iret => false,
        Mnemonic::Iretd => false,
        Mnemonic::Iretq => false,
        // CALL may stop falling through once a no-return analysis exists;
        // until then this is a deliberate over-approximation.
        Mnemonic::Call => true,
        _ => true,
    }
}

/// Does the given instruction have a fallthrough flow?
pub fn does_insn_fallthrough(insn: &Insn) -> (r: bool)
    ensures
        r == spec_fallthrough(insn.mnemonic),
{
    match insn.mnemonic {
        Mnemonic::Jmp => false,
        Mnemonic::Ret => false,
        Mnemonic::Iret => false,
        Mnemonic::Iretd => false,
        Mnemonic::Iretq => false,
        Mnemonic::Call => true,
        _ => true,
    }
}

/// The explicit branch target of an instruction at `va`: for a jump or
/// conditional branch whose first operand is an immediate, the absolute
/// target (a relative displacement is taken from the end of the
/// instruction, wrapping in 64 bits).
pub open spec fn spec_target(va: VA, insn: Insn) -> Option<VA> {
    if (insn.mnemonic == Mnemonic::Jmp || insn.mnemonic == Mnemonic::CondBr)
        && insn.operands@.len() >= 1 && insn.operands@[0].kind == OperandKind::Immediate {
        if insn.operands@[0].relative {
            Some(va.wrapping_add(insn.length as u64).wrapping_add(insn.operands@[0].imm))
        } else {
            Some(insn.operands@[0].imm)
        }
    } else {
        None
    }
}

/// The byte-immediate successor of the instruction at `va`, when it falls
/// through and stays inside the address space.
pub open spec fn spec_next(va: VA, insn: Insn) -> Option<VA> {
    if spec_fallthrough(insn.mnemonic) && va + insn.length <= u64::MAX {
        Some((va + insn.length) as u64)
    } else {
        None
    }
}

/// Is `s` a control-flow successor of the instruction at `va`?
pub open spec fn is_successor_of(s: VA, va: VA, insn: Insn) -> bool {
    spec_next(va, insn) == Some(s) || spec_target(va, insn) == Some(s)
}

/// One basic block: start VA, length in bytes, and the start VAs of blocks
/// that flow here and that this block flows to.
#[derive(Clone, Debug)]
pub struct BasicBlock {
    /// Start VA of the basic block.
    pub addr: VA,
    /// Length of the basic block in bytes.
    pub length: u64,
    /// VAs of start addresses of basic blocks that flow here.
    pub predecessors: Vec<VA>,
    /// VAs of start addresses of basic blocks that flow from here.
    pub successors: Vec<VA>,
}

/// A control-flow graph: basic blocks keyed by their start VA.
#[derive(Clone, Debug)]
pub struct CFG {
    pub basic_blocks: HashMap<VA, BasicBlock>,
}

impl View for CFG {
    type V = Map<VA, BasicBlock>;

    closed spec fn view(&self) -> Map<VA, BasicBlock> {
        self.basic_blocks@
    }
}

impl CFG {
    /// The closure the walk guarantees: every successor edge of every block
    /// either lands on a block of the graph or leaves the decoded region
    /// entirely.
    pub open spec fn closed_under(self, insns: Map<VA, Insn>) -> bool {
        forall|b: VA, j: int| self@.contains_key(b) && 0 <= j < self@[b].successors@.len()
            ==> self@.contains_key(#[trigger] self@[b].successors@[j]) || !insns.contains_key(
            self@[b].successors@[j],
        )
    }

    /// Blocks describe themselves: each is keyed by its own start address
    /// and is at least one byte long.
    pub open spec fn blocks_wf(self) -> bool {
        forall|b: VA| #[trigger] self@.contains_key(b) ==> self@[b].addr == b
            && self@[b].length >= 1
    }

    /// Every recorded predecessor is a block of the graph that indeed lists
    /// the target among its successors.
    pub open spec fn preds_wf(self) -> bool {
        forall|b: VA, j: int| self@.contains_key(b) && 0 <= j < self@[b].predecessors@.len()
            ==> self@.contains_key(#[trigger] self@[b].predecessors@[j])
                && self@[self@[b].predecessors@[j]].successors@.contains(b)
    }
}


/// An element of a sequence survives pushing another element, and the
/// pushed element is contained afterwards.
proof fn lemma_push_contains(s: Seq<VA>, v: VA, w: VA)
    ensures
        s.push(v).contains(w) <==> s.contains(w) || w == v,
{
    if s.contains(w) {
        let i = choose|i: int| 0 <= i < s.len() && s[i] == w;
        assert(s.push(v)[i] == w);
    }
    assert(s.push(v)[s.len() as int] == v);
    if s.push(v).contains(w) && w != v {
        let i = choose|i: int| 0 <= i < s.push(v).len() && s.push(v)[i] == w;
        assert(s[i] == w);
    }
}

/// An element other than the last survives dropping the last element.
proof fn lemma_subrange_contains(s: Seq<VA>, w: VA)
    requires
        s.len() > 0,
        s.contains(w),
        w != s[s.len() - 1],
    ensures
        s.subrange(0, s.len() - 1).contains(w),
{
    let i = choose|i: int| 0 <= i < s.len() && s[i] == w;
    assert(s.subrange(0, s.len() - 1)[i] == w);
}

/// Depth-first worklist discovery: every address reachable from `entry`
/// over fall-through and branch edges that decodes is recorded, in
/// processing order, each exactly once.
#[verifier::rlimit(100)]
fn explore(insns: &HashMap<VA, Insn>, entry: VA) -> (r: (Vec<VA>, HashSet<VA>))
    ensures
        forall|w: VA| r.1@.contains(w) <==> r.0@.contains(w),
        forall|i: int, j: int| 0 <= i < j < r.0@.len() ==> r.0@[i] != r.0@[j],
        forall|i: int| 0 <= i < r.0@.len() ==> insns@.contains_key(#[trigger] r.0@[i]),
        insns@.contains_key(entry) ==> r.1@.contains(entry),
        forall|i: int, s: VA| 0 <= i < r.0@.len() && #[trigger] is_successor_of(
            s,
            r.0@[i],
            insns@[r.0@[i]],
        ) ==> r.1@.contains(s) || !insns@.contains_key(s),
{
    let mut order: Vec<VA> = Vec::new();
    let mut visited: HashSet<VA> = HashSet::new();
    let mut queue: VecDeque<VA> = VecDeque::new();
    queue.push_back(entry);
    proof {
        assert(queue@[0] == entry);
    }
    while queue.len() > 0
        invariant
            forall|w: VA| visited@.contains(w) <==> order@.contains(w),
            forall|i: int, j: int| 0 <= i < j < order@.len() ==> order@[i] != order@[j],
            forall|i: int| 0 <= i < order@.len() ==> insns@.contains_key(#[trigger] order@[i]),
            visited@.finite(),
            visited@.len() <= insns@.dom().len(),
            visited@.subset_of(insns@.dom()),
            insns@.contains_key(entry) ==> visited@.contains(entry) || queue@.contains(entry),
            forall|i: int, s: VA| 0 <= i < order@.len() && #[trigger] is_successor_of(
                s,
                order@[i],
                insns@[order@[i]],
            ) ==> visited@.contains(s) || queue@.contains(s) || !insns@.contains_key(s),
        decreases insns@.dom().len() - visited@.len(), queue@.len(),
    {
        let ghost q0 = queue@;
        let ghost visited0 = visited@;
        let ghost order0 = order@;
        let va = match queue.pop_back() {
            Some(v) => v,
            None => {
                vstd::pervasive::unreached()
            },
        };
        let ghost q1 = queue@;
        let already = visited.contains(&va);
        if !already {
            match insns.get(&va) {
                None => {
                    proof {
                        assert forall|w: VA| q0.contains(w) implies visited@.contains(w)
                            || queue@.contains(w) || !insns@.contains_key(w) by {
                            if w == va {
                                assert(!insns@.contains_key(w));
                            } else {
                                lemma_subrange_contains(q0, w);
                            }
                        }
                    }
                },
                Some(insn) => {
                    visited.insert(va);
                    order.push(va);
                    proof {
                        vstd::std_specs::hash::axiom_hashmap_view_finite_dom(*insns);
                        assert(visited@ =~= visited0.insert(va));
                        assert(visited@.len() == visited0.len() + 1);
                        vstd::set_lib::lemma_len_subset(visited@, insns@.dom());
                        assert forall|w: VA| visited@.contains(w) <==> order@.contains(w) by {
                            lemma_push_contains(order0, va, w);
                        }
                        assert forall|i: int, j: int| 0 <= i < j < order@.len()
                            implies order@[i] != order@[j] by {
                            if j == order@.len() - 1 {
                                assert(!order0.contains(va));
                            }
                        }
                    }
                    let mut nx: Option<VA> = None;
                    if does_insn_fallthrough(insn) && va <= u64::MAX - insn.length as u64 {
                        nx = Some(va + insn.length as u64);
                    }
                    let mut target: Option<VA> = None;
                    if (matches!(insn.mnemonic, Mnemonic::Jmp) || matches!(
                        insn.mnemonic,
                        Mnemonic::CondBr,
                    )) && insn.operands.len() >= 1 {
                        let op = insn.operands[0];
                        if matches!(op.kind, OperandKind::Immediate) {
                            if op.relative {
                                target = Some(
                                    va.wrapping_add(insn.length as u64).wrapping_add(op.imm),
                                );
                            } else {
                                target = Some(op.imm);
                            }
                        }
                    }
                    proof {
                        assert(nx == spec_next(va, *insn));
                        assert(target == spec_target(va, *insn));
                    }
                    match nx {
                        Some(n) => {
                            queue.push_back(n);
                        },
                        None => {},
                    }
                    let ghost q2 = queue@;
                    match target {
                        Some(t) => {
                            queue.push_back(t);
                        },
                        None => {},
                    }
                    proof {
                        assert forall|w: VA| q1.contains(w) implies queue@.contains(w) by {
                            if q2 != q1 {
                                lemma_push_contains(q1, q2[q2.len() - 1], w);
                            }
                            assert(q2.contains(w));
                            if queue@ != q2 {
                                lemma_push_contains(q2, queue@[queue@.len() - 1], w);
                            }
                        }
                        match nx {
                            Some(n) => {
                                assert(q2[q2.len() - 1] == n);
                                assert(q2.contains(n));
                                if queue@ != q2 {
                                    lemma_push_contains(q2, queue@[queue@.len() - 1], n);
                                }
                                assert(queue@.contains(n));
                            },
                            None => {},
                        }
                        match target {
                            Some(t) => {
                                assert(queue@[queue@.len() - 1] == t);
                                assert(queue@.contains(t));
                            },
                            None => {},
                        }
                        assert forall|w: VA| q0.contains(w) implies visited@.contains(w)
                            || queue@.contains(w) || !insns@.contains_key(w) by {
                            if w == va {
                                assert(visited@.contains(w));
                            } else {
                                lemma_subrange_contains(q0, w);
                            }
                        }
                        assert forall|i: int, s: VA| 0 <= i < order@.len()
                            && #[trigger] is_successor_of(s, order@[i], insns@[order@[i]])
                            implies visited@.contains(s) || queue@.contains(s)
                                || !insns@.contains_key(s) by {
                            if i == order@.len() - 1 {
                                assert(order@[i] == va);
                            } else {
                                assert(order0[i] == order@[i]);
                                assert(visited0.contains(s) || q0.contains(s)
                                    || !insns@.contains_key(s));
                                if q0.contains(s) && !visited0.contains(s)
                                    && insns@.contains_key(s) {
                                    if s == va {
                                        assert(visited@.contains(s));
                                    } else {
                                        lemma_subrange_contains(q0, s);
                                    }
                                }
                            }
                        }
                    }
                },
            }
        } else {
            proof {
                assert forall|w: VA| q0.contains(w) implies visited@.contains(w)
                    || queue@.contains(w) || !insns@.contains_key(w) by {
                    if w != va {
                        lemma_subrange_contains(q0, w);
                    }
                }
            }
        }
    }
    (order, visited)
}


/// Record `x` as a leader exactly once, keeping the vector and the set in
/// step.
fn add_leader(lead: &mut HashSet<VA>, lead_vec: &mut Vec<VA>, x: VA)
    requires
        forall|w: VA| old(lead)@.contains(w) <==> old(lead_vec)@.contains(w),
        forall|a: int, b: int| 0 <= a < b < old(lead_vec)@.len() ==> old(lead_vec)@[a]
            != old(lead_vec)@[b],
    ensures
        final(lead)@ == old(lead)@.insert(x),
        forall|w: VA| final(lead)@.contains(w) <==> final(lead_vec)@.contains(w),
        forall|a: int, b: int| 0 <= a < b < final(lead_vec)@.len() ==> final(lead_vec)@[a]
            != final(lead_vec)@[b],
{
    let ghost lead0 = lead@;
    let ghost vec0 = lead_vec@;
    if !lead.contains(&x) {
        lead.insert(x);
        lead_vec.push(x);
        proof {
            assert(lead@ =~= lead0.insert(x));
            assert forall|w: VA| lead@.contains(w) <==> lead_vec@.contains(w) by {
                lemma_push_contains(vec0, x, w);
            }
            assert forall|a: int, b: int| 0 <= a < b < lead_vec@.len()
                implies lead_vec@[a] != lead_vec@[b] by {
                if b == lead_vec@.len() - 1 {
                    assert(!vec0.contains(x));
                }
            }
        }
    } else {
        proof {
            assert(lead@ =~= lead0.insert(x));
        }
    }
}

/// The block leaders among the walked addresses: the entry, every walked
/// branch target, and every walked fall-through successor of an
/// instruction that branches or does not fall through.
fn find_leaders(
    insns: &HashMap<VA, Insn>,
    order: &Vec<VA>,
    visited: &HashSet<VA>,
    entry: VA,
) -> (r: (Vec<VA>, HashSet<VA>))
    requires
        forall|w: VA| visited@.contains(w) <==> order@.contains(w),
        forall|i: int| 0 <= i < order@.len() ==> insns@.contains_key(#[trigger] order@[i]),
    ensures
        forall|w: VA| r.1@.contains(w) <==> r.0@.contains(w),
        forall|i: int, j: int| 0 <= i < j < r.0@.len() ==> r.0@[i] != r.0@[j],
        forall|w: VA| #[trigger] r.1@.contains(w) ==> visited@.contains(w),
        visited@.contains(entry) ==> r.1@.contains(entry),
        forall|i: int| 0 <= i < order@.len() && (#[trigger] spec_target(
            order@[i],
            insns@[order@[i]],
        )) is Some && visited@.contains(spec_target(order@[i], insns@[order@[i]])->Some_0)
            ==> r.1@.contains(spec_target(order@[i], insns@[order@[i]])->Some_0),
        forall|i: int| 0 <= i < order@.len() && (spec_target(
            order@[i],
            insns@[order@[i]],
        ) is Some || !spec_fallthrough(insns@[order@[i]].mnemonic)) && (#[trigger] spec_next(
            order@[i],
            insns@[order@[i]],
        )) is Some && visited@.contains(spec_next(order@[i], insns@[order@[i]])->Some_0)
            ==> r.1@.contains(spec_next(order@[i], insns@[order@[i]])->Some_0),
{
    let mut lead_vec: Vec<VA> = Vec::new();
    let mut lead: HashSet<VA> = HashSet::new();
    if visited.contains(&entry) {
        add_leader(&mut lead, &mut lead_vec, entry);
    }
    let n = order.len();
    let mut i: usize = 0;
    while i < n
        invariant
            n == order@.len(),
            i <= n,
            forall|w: VA| visited@.contains(w) <==> order@.contains(w),
            forall|k: int| 0 <= k < order@.len() ==> insns@.contains_key(#[trigger] order@[k]),
            forall|w: VA| lead@.contains(w) <==> lead_vec@.contains(w),
            forall|a: int, b: int| 0 <= a < b < lead_vec@.len() ==> lead_vec@[a] != lead_vec@[b],
            forall|w: VA| #[trigger] lead@.contains(w) ==> visited@.contains(w),
            visited@.contains(entry) ==> lead@.contains(entry),
            forall|k: int| 0 <= k < i && (#[trigger] spec_target(
                order@[k],
                insns@[order@[k]],
            )) is Some && visited@.contains(spec_target(order@[k], insns@[order@[k]])->Some_0)
                ==> lead@.contains(spec_target(order@[k], insns@[order@[k]])->Some_0),
            forall|k: int| 0 <= k < i && (spec_target(
                order@[k],
                insns@[order@[k]],
            ) is Some || !spec_fallthrough(insns@[order@[k]].mnemonic)) && (#[trigger] spec_next(
                order@[k],
                insns@[order@[k]],
            )) is Some && visited@.contains(spec_next(order@[k], insns@[order@[k]])->Some_0)
                ==> lead@.contains(spec_next(order@[k], insns@[order@[k]])->Some_0),
        decreases n - i,
    {
        let va = order[i];
        let insn = match insns.get(&va) {
            Some(x) => x,
            None => {
                vstd::pervasive::unreached()
            },
        };
        let mut target: Option<VA> = None;
        if (matches!(insn.mnemonic, Mnemonic::Jmp) || matches!(insn.mnemonic, Mnemonic::CondBr))
            && insn.operands.len() >= 1 {
            let op = insn.operands[0];
            if matches!(op.kind, OperandKind::Immediate) {
                if op.relative {
                    target = Some(va.wrapping_add(insn.length as u64).wrapping_add(op.imm));
                } else {
                    target = Some(op.imm);
                }
            }
        }
        proof {
            assert(target == spec_target(va, *insn));
        }
        match target {
            Some(t) => {
                if visited.contains(&t) {
                    add_leader(&mut lead, &mut lead_vec, t);
                }
            },
            None => {},
        }
        let ft = does_insn_fallthrough(insn);
        if (target.is_some() || !ft) && ft && va <= u64::MAX - insn.length as u64 {
            let nx = va + insn.length as u64;
            if visited.contains(&nx) {
                add_leader(&mut lead, &mut lead_vec, nx);
            }
        }
        i += 1;
    }
    (lead_vec, lead)
}


/// Copy a vector of addresses.
fn copy_vas(v: &Vec<VA>) -> (r: Vec<VA>)
    ensures
        r@ == v@,
{
    let mut out: Vec<VA> = Vec::new();
    let mut i: usize = 0;
    while i < v.len()
        invariant
            i <= v@.len(),
            out@ =~= v@.subrange(0, i as int),
        decreases v@.len() - i,
    {
        out.push(v[i]);
        i += 1;
    }
    proof {
        assert(out@ =~= v@);
    }
    out
}

/// Walk one basic block forward from its leader: straight-line instructions
/// until a branch, a non-falling-through instruction, an undecoded
/// successor, or the next leader.  Returns the block's byte length and the
/// successor edges of its terminal instruction.
#[verifier::rlimit(100)]
fn walk_block(
    insns: &HashMap<VA, Insn>,
    visited: &HashSet<VA>,
    lead: &HashSet<VA>,
    start: VA,
) -> (r: (u64, Vec<VA>))
    requires
        visited@.contains(start),
        forall|w: VA| #[trigger] visited@.contains(w) ==> insns@.contains_key(w)
            && insns@[w].wf(),
        forall|w: VA| #[trigger] visited@.contains(w) && (spec_target(w, insns@[w])) is Some
            && visited@.contains(spec_target(w, insns@[w])->Some_0) ==> lead@.contains(
            spec_target(w, insns@[w])->Some_0,
        ),
        forall|w: VA| #[trigger] visited@.contains(w) && (spec_target(w, insns@[w]) is Some
            || !spec_fallthrough(insns@[w].mnemonic)) && (spec_next(w, insns@[w])) is Some
            && visited@.contains(spec_next(w, insns@[w])->Some_0) ==> lead@.contains(
            spec_next(w, insns@[w])->Some_0,
        ),
        forall|w: VA, s: VA| visited@.contains(w) && #[trigger] is_successor_of(
            s,
            w,
            insns@[w],
        ) ==> visited@.contains(s) || !insns@.contains_key(s),
    ensures
        r.0 >= 1,
        forall|j: int| 0 <= j < r.1@.len() ==> lead@.contains(#[trigger] r.1@[j])
            || !insns@.contains_key(r.1@[j]),
{
    let mut cur = start;
    loop
        invariant
            start <= cur,
            visited@.contains(cur),
            visited@.contains(start),
            forall|w: VA| #[trigger] visited@.contains(w) ==> insns@.contains_key(w)
                && insns@[w].wf(),
            forall|w: VA| #[trigger] visited@.contains(w) && (spec_target(w, insns@[w])) is Some
                && visited@.contains(spec_target(w, insns@[w])->Some_0) ==> lead@.contains(
                spec_target(w, insns@[w])->Some_0,
            ),
            forall|w: VA| #[trigger] visited@.contains(w) && (spec_target(w, insns@[w]) is Some
                || !spec_fallthrough(insns@[w].mnemonic)) && (spec_next(w, insns@[w])) is Some
                && visited@.contains(spec_next(w, insns@[w])->Some_0) ==> lead@.contains(
                spec_next(w, insns@[w])->Some_0,
            ),
            forall|w: VA, s: VA| visited@.contains(w) && #[trigger] is_successor_of(
                s,
                w,
                insns@[w],
            ) ==> visited@.contains(s) || !insns@.contains_key(s),
        decreases u64::MAX - cur,
    {
        let insn = match insns.get(&cur) {
            Some(x) => x,
            None => {
                vstd::pervasive::unreached()
            },
        };
        let ft = does_insn_fallthrough(insn);
        let mut nx: Option<VA> = None;
        if ft && cur <= u64::MAX - insn.length as u64 {
            nx = Some(cur + insn.length as u64);
        }
        let mut target: Option<VA> = None;
        if (matches!(insn.mnemonic, Mnemonic::Jmp) || matches!(insn.mnemonic, Mnemonic::CondBr))
            && insn.operands.len() >= 1 {
            let op = insn.operands[0];
            if matches!(op.kind, OperandKind::Immediate) {
                if op.relative {
                    target = Some(va_target(cur, insn.length, op.imm));
                } else {
                    target = Some(op.imm);
                }
            }
        }
        proof {
            assert(nx == spec_next(cur, *insn));
            assert(target == spec_target(cur, *insn));
        }
        let continue_to: Option<VA> = match nx {
            Some(n) => {
                if target.is_none() && ft && visited.contains(&n) && !lead.contains(&n) {
                    Some(n)
                } else {
                    None
                }
            },
            None => None,
        };
        match continue_to {
            Some(n) => {
                cur = n;
            },
            None => {
                // `cur` is the terminal instruction: emit the block.
                let mut succ: Vec<VA> = Vec::new();
                match nx {
                    Some(n) => {
                        proof {
                            assert(is_successor_of(n, cur, insns@[cur]));
                            if visited@.contains(n) {
                                assert(lead@.contains(n));
                            }
                        }
                        succ.push(n);
                    },
                    None => {},
                }
                match target {
                    Some(t) => {
                        proof {
                            assert(is_successor_of(t, cur, insns@[cur]));
                            if visited@.contains(t) {
                                assert(lead@.contains(t));
                            } else {
                                assert(!insns@.contains_key(t));
                            }
                        }
                        succ.push(t);
                    },
                    None => {},
                }
                let length: u64 = if cur - start <= u64::MAX - insn.length as u64 {
                    cur - start + insn.length as u64
                } else {
                    u64::MAX
                };
                return (length, succ);
            },
        }
    }
}

/// The absolute target of a relative branch: the displacement is taken from
/// the end of the instruction, wrapping in 64 bits.
fn va_target(va: VA, length: u8, disp: u64) -> (r: VA)
    ensures
        r == va.wrapping_add(length as u64).wrapping_add(disp),
{
    va.wrapping_add(length as u64).wrapping_add(disp)
}

/// Build the control-flow graph reachable from `va`: a worklist walk over
/// fall-through and branch edges of the decoded instructions, assembled
/// into maximal basic blocks with predecessor and successor edges.  Every
/// decodable successor edge lands on a block of the graph; edges out of the
/// decoded region are retained but get no block.
#[verifier::rlimit(100)]
pub fn build_cfg(insns: &HashMap<VA, Insn>, va: VA) -> (r: CFG)
    requires
        forall|w: VA| #[trigger] insns@.contains_key(w) ==> insns@[w].wf(),
    ensures
        r.closed_under(insns@),
        r.blocks_wf(),
        r.preds_wf(),
        forall|b: VA| #[trigger] r@.contains_key(b) ==> insns@.contains_key(b),
        insns@.contains_key(va) ==> r@.contains_key(va),
{
    let (order, visited) = explore(insns, va);
    let (lead_vec, lead) = find_leaders(insns, &order, &visited, va);
    proof {
        assert forall|w: VA| #[trigger] visited@.contains(w) implies insns@.contains_key(w)
            && insns@[w].wf() by {
            assert(order@.contains(w));
            let i = choose|i: int| 0 <= i < order@.len() && order@[i] == w;
            assert(insns@.contains_key(order@[i]));
        }
        assert forall|w: VA| #[trigger] visited@.contains(w) && (spec_target(
            w,
            insns@[w],
        )) is Some && visited@.contains(spec_target(w, insns@[w])->Some_0) implies lead@.contains(
            spec_target(w, insns@[w])->Some_0,
        ) by {
            assert(order@.contains(w));
            let i = choose|i: int| 0 <= i < order@.len() && order@[i] == w;
            assert((spec_target(order@[i], insns@[order@[i]])) is Some);
        }
        assert forall|w: VA| #[trigger] visited@.contains(w) && (spec_target(w, insns@[w]) is Some
            || !spec_fallthrough(insns@[w].mnemonic)) && (spec_next(w, insns@[w])) is Some
            && visited@.contains(spec_next(w, insns@[w])->Some_0) implies lead@.contains(
            spec_next(w, insns@[w])->Some_0,
        ) by {
            assert(order@.contains(w));
            let i = choose|i: int| 0 <= i < order@.len() && order@[i] == w;
            assert((spec_next(order@[i], insns@[order@[i]])) is Some);
        }
        assert forall|w: VA, s: VA| visited@.contains(w) && #[trigger] is_successor_of(
            s,
            w,
            insns@[w],
        ) implies visited@.contains(s) || !insns@.contains_key(s) by {
            assert(order@.contains(w));
            let i = choose|i: int| 0 <= i < order@.len() && order@[i] == w;
            assert(is_successor_of(s, order@[i], insns@[order@[i]]));
        }
    }
    let mut cfg = CFG { basic_blocks: HashMap::new() };
    let n = lead_vec.len();
    let mut i: usize = 0;
    while i < n
        invariant
            n == lead_vec@.len(),
            i <= n,
            forall|w: VA| lead@.contains(w) <==> lead_vec@.contains(w),
            forall|a: int, b: int| 0 <= a < b < lead_vec@.len() ==> lead_vec@[a] != lead_vec@[b],
            forall|w: VA| #[trigger] lead@.contains(w) ==> visited@.contains(w),
            visited@.contains(va) ==> lead@.contains(va),
            insns@.contains_key(va) ==> visited@.contains(va),
            forall|w: VA| #[trigger] visited@.contains(w) ==> insns@.contains_key(w)
                && insns@[w].wf(),
            forall|w: VA| #[trigger] visited@.contains(w) && (spec_target(w, insns@[w])) is Some
                && visited@.contains(spec_target(w, insns@[w])->Some_0) ==> lead@.contains(
                spec_target(w, insns@[w])->Some_0,
            ),
            forall|w: VA| #[trigger] visited@.contains(w) && (spec_target(w, insns@[w]) is Some
                || !spec_fallthrough(insns@[w].mnemonic)) && (spec_next(w, insns@[w])) is Some
                && visited@.contains(spec_next(w, insns@[w])->Some_0) ==> lead@.contains(
                spec_next(w, insns@[w])->Some_0,
            ),
            forall|w: VA, s: VA| visited@.contains(w) && #[trigger] is_successor_of(
                s,
                w,
                insns@[w],
            ) ==> visited@.contains(s) || !insns@.contains_key(s),
            forall|b: VA| #[trigger] cfg@.contains_key(b) <==> lead_vec@.subrange(
                0,
                i as int,
            ).contains(b),
            forall|b: VA| #[trigger] cfg@.contains_key(b) ==> cfg@[b].addr == b
                && cfg@[b].length >= 1 && cfg@[b].predecessors@.len() == 0,
            forall|b: VA, j: int| cfg@.contains_key(b) && 0 <= j < cfg@[b].successors@.len()
                ==> lead@.contains(#[trigger] cfg@[b].successors@[j]) || !insns@.contains_key(
                cfg@[b].successors@[j],
            ),
        decreases n - i,
    {
        let ghost cfg0 = cfg@;
        let ell = lead_vec[i];
        proof {
            assert(lead_vec@.contains(ell));
            assert(lead@.contains(ell));
        }
        let (length, succ) = walk_block(insns, &visited, &lead, ell);
        let blk = BasicBlock { addr: ell, length, predecessors: Vec::new(), successors: succ };
        let ghost gblk = blk;
        cfg.basic_blocks.insert(ell, blk);
        proof {
            assert(cfg@ =~= cfg0.insert(ell, gblk));
            assert forall|b: VA| #[trigger] cfg@.contains_key(b) <==> lead_vec@.subrange(
                0,
                i as int + 1,
            ).contains(b) by {
                assert(lead_vec@.subrange(0, i as int + 1)
                    =~= lead_vec@.subrange(0, i as int).push(ell));
                lemma_push_contains(lead_vec@.subrange(0, i as int), ell, b);
            }
        }
        i += 1;
    }
    proof {
        assert(lead_vec@.subrange(0, n as int) =~= lead_vec@);
    }
    // Wire predecessor edges: each block names the blocks it flows to.
    let ghost cfg1 = cfg@;
    let mut i: usize = 0;
    while i < n
        invariant
            n == lead_vec@.len(),
            i <= n,
            forall|w: VA| lead@.contains(w) <==> lead_vec@.contains(w),
            forall|b: VA| #[trigger] cfg@.contains_key(b) <==> cfg1.contains_key(b),
            forall|b: VA| #[trigger] cfg@.contains_key(b) ==> cfg@[b].addr == cfg1[b].addr
                && cfg@[b].length == cfg1[b].length && cfg@[b].successors == cfg1[b].successors,
            forall|b: VA| #[trigger] cfg1.contains_key(b) ==> cfg1[b].addr == b
                && cfg1[b].length >= 1,
            forall|b: VA| #[trigger] cfg1.contains_key(b) <==> lead@.contains(b),
            forall|b: VA, j: int| cfg1.contains_key(b) && 0 <= j < cfg1[b].successors@.len()
                ==> lead@.contains(#[trigger] cfg1[b].successors@[j]) || !insns@.contains_key(
                cfg1[b].successors@[j],
            ),
            forall|b: VA, j: int| cfg@.contains_key(b) && 0 <= j < cfg@[b].predecessors@.len()
                ==> cfg@.contains_key(#[trigger] cfg@[b].predecessors@[j])
                    && cfg@[cfg@[b].predecessors@[j]].successors@.contains(b),
        decreases n - i,
    {
        let ell = lead_vec[i];
        proof {
            assert(lead@.contains(ell));
            assert(cfg1.contains_key(ell));
            assert(cfg@.contains_key(ell));
        }
        let succ = match cfg.basic_blocks.get(&ell) {
            Some(blk) => copy_vas(&blk.successors),
            None => {
                vstd::pervasive::unreached()
            },
        };
        let m = succ.len();
        let mut j: usize = 0;
        while j < m
            invariant
                n == lead_vec@.len(),
                m == succ@.len(),
                j <= m,
                cfg@.contains_key(ell),
                succ@ == cfg@[ell].successors@,
                forall|w: VA| lead@.contains(w) <==> lead_vec@.contains(w),
                forall|b: VA| #[trigger] cfg@.contains_key(b) <==> cfg1.contains_key(b),
                forall|b: VA| #[trigger] cfg@.contains_key(b) ==> cfg@[b].addr == cfg1[b].addr
                    && cfg@[b].length == cfg1[b].length && cfg@[b].successors == cfg1[b].successors,
                forall|b: VA| #[trigger] cfg1.contains_key(b) ==> cfg1[b].addr == b
                    && cfg1[b].length >= 1,
                forall|b: VA| #[trigger] cfg1.contains_key(b) <==> lead@.contains(b),
                forall|b: VA, t: int| cfg1.contains_key(b) && 0 <= t < cfg1[b].successors@.len()
                    ==> lead@.contains(#[trigger] cfg1[b].successors@[t]) || !insns@.contains_key(
                    cfg1[b].successors@[t],
                ),
                forall|b: VA, t: int| cfg@.contains_key(b) && 0 <= t < cfg@[b].predecessors@.len()
                    ==> cfg@.contains_key(#[trigger] cfg@[b].predecessors@[t])
                        && cfg@[cfg@[b].predecessors@[t]].successors@.contains(b),
            decreases m - j,
        {
            let sv = succ[j];
            let ghost prev = cfg@;
            if cfg.basic_blocks.contains_key(&sv) {
                let mut blk = match cfg.basic_blocks.remove(&sv) {
                    Some(b) => b,
                    None => {
                        vstd::pervasive::unreached()
                    },
                };
                let ghost blk0 = blk;
                blk.predecessors.push(ell);
                let ghost blk1 = blk;
                cfg.basic_blocks.insert(sv, blk);
                proof {
                    assert(cfg@ =~= prev.insert(sv, blk1));
                    assert(blk1.successors == blk0.successors);
                    assert(blk1.predecessors@ == blk0.predecessors@.push(ell));
                    assert(prev[ell].successors@.contains(sv)) by {
                        assert(prev[ell].successors@[j as int] == sv);
                    }
                    assert forall|b: VA, t: int| cfg@.contains_key(b) && 0 <= t < cfg@[b].predecessors@.len() implies cfg@.contains_key(
                        #[trigger] cfg@[b].predecessors@[t],
                    ) && cfg@[cfg@[b].predecessors@[t]].successors@.contains(b) by {
                        if b == sv {
                            if t < blk0.predecessors@.len() {
                                assert(cfg@[b].predecessors@[t] == blk0.predecessors@[t]);
                            } else {
                                assert(cfg@[b].predecessors@[t] == ell);
                                assert(cfg@[ell].successors@.contains(sv));
                            }
                        }
                    }
                }
            }
            j += 1;
        }
        i += 1;
    }
    proof {
        assert forall|b: VA| #[trigger] cfg@.contains_key(b) implies insns@.contains_key(b) by {
            assert(cfg1.contains_key(b));
            assert(lead@.contains(b));
            assert(visited@.contains(b));
        }
        assert forall|b: VA, j: int| cfg@.contains_key(b) && 0 <= j < cfg@[b].successors@.len() implies cfg@.contains_key(#[trigger] cfg@[b].successors@[j])
            || !insns@.contains_key(cfg@[b].successors@[j]) by {
            let sv = cfg@[b].successors@[j];
            assert(cfg1.contains_key(b));
            assert(cfg@[b].successors == cfg1[b].successors);
            if insns@.contains_key(sv) {
                assert(lead@.contains(sv));
                assert(cfg1.contains_key(sv));
            }
        }
    }
    cfg
}

} // verus!
