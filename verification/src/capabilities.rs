//! Generation-checked kernel capabilities: a fixed table of slots whose
//! handles go stale when a slot is revoked.

use vstd::prelude::*;

verus! {

pub const CAPABILITIES: usize = 8;

#[derive(Clone, Copy, Debug, PartialEq, Eq, Structural)]
pub enum CapabilityKind {
    Debug,
    Service,
    Recovery,
    Secret,
    Inference,
}

/// A handle: slot generation in the high 16 bits, slot index in the low.
#[derive(Clone, Copy, Debug, PartialEq, Eq, Structural)]
pub struct Capability(u32);

#[derive(Clone, Copy, Debug, PartialEq, Eq, Structural)]
pub struct Slot {
    pub kind: CapabilityKind,
    pub generation: u16,
    pub active: bool,
}

impl Capability {
    pub closed spec fn value(self) -> u32 {
        self.0
    }

    /// The slot index the handle names.
    pub open spec fn index(self) -> int {
        (self.value() % 65536) as int
    }

    /// The slot generation the handle names.
    pub open spec fn generation(self) -> int {
        (self.value() / 65536) as int
    }

    /// The handle for `index` at `generation`.
    pub fn from_parts(index: u16, generation: u16) -> (r: Capability)
        ensures
            r.index() == index,
            r.generation() == generation,
    {
        Capability(generation as u32 * 65536 + index as u32)
    }

    pub fn raw(self) -> (r: u32)
        ensures
            r == self.value(),
    {
        self.0
    }
}

pub struct CapabilityManager {
    slots: Vec<Slot>,
}

/// The first inactive slot at or after `i`.
pub open spec fn first_free(slots: Seq<Slot>, i: int) -> Option<int>
    decreases slots.len() - i,
{
    if i < 0 || i >= slots.len() {
        None
    } else if !slots[i].active {
        Some(i)
    } else {
        first_free(slots, i + 1)
    }
}

/// Whether `capability` names an active slot of `kind` at its current
/// generation.
pub open spec fn allows_spec(slots: Seq<Slot>, capability: Capability, kind: CapabilityKind) -> bool {
    let index = capability.index();
    &&& 0 <= index < slots.len()
    &&& slots[index].active
    &&& slots[index].kind == kind
    &&& slots[index].generation == capability.generation()
}

/// Whether revoking `capability` takes effect: it names an active slot at
/// the slot's current generation.
pub open spec fn revoke_valid(slots: Seq<Slot>, capability: Capability) -> bool {
    let index = capability.index();
    0 <= index < slots.len() && slots[index].active && slots[index].generation == capability.generation()
}

/// The generation after `g`, wrapping to 0 past `u16::MAX`.
pub open spec fn next_generation(g: u16) -> u16 {
    if g == u16::MAX {
        0
    } else {
        (g + 1) as u16
    }
}

/// The slots after granting `kind`: the first free slot activated at its
/// generation, or nothing changed when none is free.
pub open spec fn granted_slots(slots: Seq<Slot>, kind: CapabilityKind) -> Seq<Slot> {
    match first_free(slots, 0) {
        None => slots,
        Some(i) => slots.update(i, Slot { kind, generation: slots[i].generation, active: true }),
    }
}

/// The slots after revoking `capability`: its slot deactivated at the
/// next generation when the revoke takes effect.
pub open spec fn revoked_slots(slots: Seq<Slot>, capability: Capability) -> Seq<Slot> {
    if revoke_valid(slots, capability) {
        let i = capability.index();
        slots.update(i, Slot { kind: slots[i].kind, generation: next_generation(slots[i].generation), active: false })
    } else {
        slots
    }
}

/// One call on a manager.
#[derive(Clone, Copy, Debug, PartialEq, Eq, Structural)]
pub enum CapabilityOp {
    Grant(CapabilityKind),
    Revoke(Capability),
}

pub open spec fn apply_op(slots: Seq<Slot>, op: CapabilityOp) -> Seq<Slot> {
    match op {
        CapabilityOp::Grant(kind) => granted_slots(slots, kind),
        CapabilityOp::Revoke(capability) => revoked_slots(slots, capability),
    }
}

/// The slots after the calls `ops`, in order.
pub open spec fn run_ops(slots: Seq<Slot>, ops: Seq<CapabilityOp>) -> Seq<Slot>
    decreases ops.len(),
{
    if ops.len() == 0 {
        slots
    } else {
        run_ops(apply_op(slots, ops[0]), ops.drop_first())
    }
}

/// How many of the calls `ops` revoke slot `index` with effect.
pub open spec fn revokes_at(slots: Seq<Slot>, ops: Seq<CapabilityOp>, index: int) -> nat
    decreases ops.len(),
{
    if ops.len() == 0 {
        0
    } else {
        let here: nat = match ops[0] {
            CapabilityOp::Revoke(d) => if revoke_valid(slots, d) && d.index() == index {
                1
            } else {
                0
            },
            CapabilityOp::Grant(_) => 0,
        };
        here + revokes_at(apply_op(slots, ops[0]), ops.drop_first(), index)
    }
}

proof fn lemma_first_free_inactive(slots: Seq<Slot>, i: int)
    ensures
        first_free(slots, i) matches Some(j) ==> i <= j < slots.len() && !slots[j].active,
    decreases slots.len() - i,
{
    if 0 <= i < slots.len() && slots[i].active {
        lemma_first_free_inactive(slots, i + 1);
    }
}

proof fn lemma_handle_parts(c: Capability, d: Capability)
    requires
        c.index() == d.index(),
        c.generation() == d.generation(),
    ensures
        c == d,
{
    let x = c.value();
    let y = d.value();
    assert(x == (x / 65536) * 65536 + x % 65536) by (nonlinear_arith);
    assert(y == (y / 65536) * 65536 + y % 65536) by (nonlinear_arith);
}

proof fn lemma_step_keeps_grant(slots: Seq<Slot>, c: Capability, kind: CapabilityKind, op: CapabilityOp)
    requires
        allows_spec(slots, c, kind),
        op != CapabilityOp::Revoke(c),
    ensures
        allows_spec(apply_op(slots, op), c, kind),
        apply_op(slots, op).len() == slots.len(),
{
    lemma_first_free_inactive(slots, 0);
    match op {
        CapabilityOp::Grant(k) => {},
        CapabilityOp::Revoke(d) => {
            if revoke_valid(slots, d) && d.index() == c.index() {
                lemma_handle_parts(c, d);
            }
        },
    }
}

/// A granted handle keeps exactly its access through any further grants
/// and through revokes of other handles: it allows its own kind and no
/// other.
pub proof fn lemma_grant_persists(slots: Seq<Slot>, c: Capability, kind: CapabilityKind, ops: Seq<CapabilityOp>)
    requires
        allows_spec(slots, c, kind),
        forall|j: int| 0 <= j < ops.len() ==> ops[j] != CapabilityOp::Revoke(c),
    ensures
        forall|k: CapabilityKind| #[trigger] allows_spec(run_ops(slots, ops), c, k) <==> k == kind,
    decreases ops.len(),
{
    if ops.len() == 0 {
    } else {
        lemma_step_keeps_grant(slots, c, kind, ops[0]);
        let rest = ops.drop_first();
        assert forall|j: int| 0 <= j < rest.len() implies rest[j] != CapabilityOp::Revoke(c) by {
            assert(rest[j] == ops[j + 1]);
        }
        lemma_grant_persists(apply_op(slots, ops[0]), c, kind, rest);
        assert(run_ops(slots, ops) == run_ops(apply_op(slots, ops[0]), rest));
    }
}

/// A handle `grant` hands out, followed by any calls that do not revoke
/// it, allows exactly the kind it was granted for, and revoking it then
/// takes effect.
pub proof fn lemma_granted_handle_until_revoked(
    slots: Seq<Slot>,
    kind: CapabilityKind,
    c: Capability,
    ops: Seq<CapabilityOp>,
)
    requires
        first_free(slots, 0) is Some,
        c.index() == first_free(slots, 0).unwrap(),
        c.generation() == slots[first_free(slots, 0).unwrap()].generation,
        forall|j: int| 0 <= j < ops.len() ==> ops[j] != CapabilityOp::Revoke(c),
    ensures
        forall|k: CapabilityKind| #[trigger] allows_spec(run_ops(granted_slots(slots, kind), ops), c, k) <==> k == kind,
        revoke_valid(run_ops(granted_slots(slots, kind), ops), c),
{
    lemma_first_free_inactive(slots, 0);
    assert(allows_spec(granted_slots(slots, kind), c, kind));
    lemma_grant_persists(granted_slots(slots, kind), c, kind, ops);
    assert(allows_spec(run_ops(granted_slots(slots, kind), ops), c, kind));
}

proof fn lemma_generation_after(slots: Seq<Slot>, ops: Seq<CapabilityOp>, index: int)
    requires
        0 <= index < slots.len(),
    ensures
        run_ops(slots, ops).len() == slots.len(),
        run_ops(slots, ops)[index].generation == (slots[index].generation + revokes_at(slots, ops, index))
            % 65536,
    decreases ops.len(),
{
    if ops.len() == 0 {
    } else {
        let next = apply_op(slots, ops[0]);
        lemma_first_free_inactive(slots, 0);
        assert(next.len() == slots.len());
        lemma_generation_after(next, ops.drop_first(), index);
        match ops[0] {
            CapabilityOp::Grant(_) => {
                assert(next[index].generation == slots[index].generation);
            },
            CapabilityOp::Revoke(d) => {
                if revoke_valid(slots, d) && d.index() == index {
                    assert(next[index].generation == (slots[index].generation + 1) % 65536);
                } else {
                    assert(next[index].generation == slots[index].generation);
                }
            },
        }
    }
}

/// A revoked handle stays refused, for every kind and for a second
/// revoke, however its slot is granted again afterwards, as long as the
/// slot's generation does not come round again: fewer than 65535 later
/// revokes of that slot.
pub proof fn lemma_revoked_stays_stale(slots: Seq<Slot>, c: Capability, ops: Seq<CapabilityOp>)
    requires
        revoke_valid(slots, c),
        revokes_at(revoked_slots(slots, c), ops, c.index()) < 65535,
    ensures
        forall|k: CapabilityKind| !#[trigger] allows_spec(run_ops(revoked_slots(slots, c), ops), c, k),
        !revoke_valid(run_ops(revoked_slots(slots, c), ops), c),
{
    let i = c.index();
    let s1 = revoked_slots(slots, c);
    let g = slots[i].generation;
    assert(s1[i].generation == (g + 1) % 65536);
    lemma_generation_after(s1, ops, i);
    let m = revokes_at(s1, ops, i);
    let end = run_ops(s1, ops)[i].generation;
    assert(end == (g + 1 + m) % 65536) by {
        assert(((g + 1) % 65536 + m) % 65536 == (g + 1 + m) % 65536) by (nonlinear_arith)
            requires
                0 <= g < 65536,
                m < 65535,
        ;
    }
    assert(end != g) by (nonlinear_arith)
        requires
            end == (g + 1 + m) % 65536,
            0 <= g < 65536,
            0 <= m < 65535,
    ;
}

impl CapabilityManager {
    pub closed spec fn slots(&self) -> Seq<Slot> {
        self.slots@
    }

    pub open spec fn wf(&self) -> bool {
        self.slots().len() == CAPABILITIES
    }

    pub fn new() -> (r: Self)
        ensures
            r.wf(),
            forall|i: int| 0 <= i < CAPABILITIES ==> #[trigger] r.slots()[i] == (Slot {
                kind: CapabilityKind::Debug,
                generation: 1,
                active: false,
            }),
    {
        let mut slots: Vec<Slot> = Vec::new();
        let mut i: usize = 0;
        while i < CAPABILITIES
            invariant
                i <= CAPABILITIES,
                slots@.len() == i,
                forall|j: int| 0 <= j < i ==> #[trigger] slots@[j] == (Slot {
                    kind: CapabilityKind::Debug,
                    generation: 1,
                    active: false,
                }),
            decreases CAPABILITIES - i,
        {
            slots.push(Slot { kind: CapabilityKind::Debug, generation: 1, active: false });
            i += 1;
        }
        CapabilityManager { slots }
    }

    /// Activate the first free slot for `kind` and hand out its handle;
    /// `None` when every slot is active.
    pub fn grant(&mut self, kind: CapabilityKind) -> (r: Option<Capability>)
        requires
            old(self).wf(),
        ensures
            final(self).wf(),
            match first_free(old(self).slots(), 0) {
                None => r is None && final(self).slots() == old(self).slots(),
                Some(i) => r matches Some(c) && c.index() == i && c.generation()
                    == old(self).slots()[i].generation && final(self).slots() == old(
                    self,
                ).slots().update(i, Slot { kind, generation: old(self).slots()[i].generation, active: true })
                    && allows_spec(final(self).slots(), c, kind),
            },
            final(self).slots() == granted_slots(old(self).slots(), kind),
    {
        let mut i: usize = 0;
        while i < self.slots.len()
            invariant
                self.slots@.len() == CAPABILITIES,
                self.slots@ == old(self).slots@,
                i <= CAPABILITIES,
                first_free(self.slots@, 0) == first_free(self.slots@, i as int),
            decreases CAPABILITIES - i,
        {
            let slot = self.slots[i];
            if !slot.active {
                let generation = slot.generation;
                self.slots.set(i, Slot { kind, generation, active: true });
                return Some(Capability::from_parts(i as u16, generation));
            }
            i += 1;
        }
        None
    }

    pub fn allows(&self, capability: Capability, kind: CapabilityKind) -> (r: bool)
        requires
            self.wf(),
        ensures
            r == allows_spec(self.slots(), capability, kind),
    {
        let index = (capability.0 % 65536) as usize;
        let generation = (capability.0 / 65536) as u16;
        if index >= self.slots.len() {
            return false;
        }
        let slot = self.slots[index];
        slot.active && slot.kind == kind && slot.generation == generation
    }

    /// Deactivate the slot that `capability` names, when it is active at
    /// that generation, and advance the slot's generation so that every
    /// handle to it goes stale.
    pub fn revoke(&mut self, capability: Capability) -> (r: bool)
        requires
            old(self).wf(),
        ensures
            final(self).wf(),
            ({
                let index = capability.index();
                let valid = 0 <= index < CAPABILITIES && old(self).slots()[index].active
                    && old(self).slots()[index].generation == capability.generation();
                &&& r == valid
                &&& valid ==> final(self).slots() == old(self).slots().update(
                    index,
                    Slot {
                        kind: old(self).slots()[index].kind,
                        generation: (if old(self).slots()[index].generation == u16::MAX {
                            0
                        } else {
                            old(self).slots()[index].generation + 1
                        }) as u16,
                        active: false,
                    },
                )
                &&& !valid ==> final(self).slots() == old(self).slots()
            }),
            r ==> forall|kind: CapabilityKind| !allows_spec(final(self).slots(), capability, kind),
            r == revoke_valid(old(self).slots(), capability),
            final(self).slots() == revoked_slots(old(self).slots(), capability),
    {
        let index = (capability.0 % 65536) as usize;
        let generation = (capability.0 / 65536) as u16;
        if index >= self.slots.len() {
            return false;
        }
        let slot = self.slots[index];
        if !slot.active || slot.generation != generation {
            return false;
        }
        let next = if slot.generation == u16::MAX { 0 } else { slot.generation + 1 };
        self.slots.set(index, Slot { kind: slot.kind, generation: next, active: false });
        true
    }
}

} // verus!
