use vstd::prelude::*;

use crate::checker::LocalInfo;
use crate::ir::{BasicBlock, BlockId, Instruction, Register, Terminator};
use crate::scoped_locals::ScopedLocals;
use crate::span::Span;
use crate::types::{kind_is_object, TypeId, TypeInterner};

verus! {

/// The next value of a counter of ids: one more, wrapping at `u32::MAX`.
pub open spec fn next_id(n: u32) -> u32 {
    if n == u32::MAX {
        0
    } else {
        (n + 1) as u32
    }
}

/// The state of lowering one function body.
pub struct FunctionLowerCtx {
    /// The finished blocks, in the order they were finished.
    pub blocks: Vec<BasicBlock>,
    pub current_block_id: BlockId,
    pub current_instructions: Vec<Instruction>,
    pub current_spans: Vec<Span>,
    pub current_span: Span,
    pub next_block_id: u32,
    pub next_register: u32,
    /// The register each visible local lives in.
    pub locals: ScopedLocals<Register>,
    /// The type of each visible local.
    pub local_types: ScopedLocals<LocalInfo>,
    pub register_types: Vec<TypeId>,
    pub return_type: TypeId,
    /// The loops being lowered, innermost last.
    pub loop_stack: Vec<LoopContext>,
}

/// Where `break` and `continue` go inside a loop being lowered.
pub struct LoopContext {
    pub label: Option<String>,
    pub continue_block: BlockId,
    pub break_block: BlockId,
    /// The register of each local when the loop was entered.
    pub pre_loop_locals: Vec<(String, Register)>,
}

impl FunctionLowerCtx {
    /// Every block, finished or current, has one span per instruction.
    pub open spec fn wf(&self) -> bool {
        &&& self.current_spans@.len() == self.current_instructions@.len()
        &&& forall|i: int|
            0 <= i < self.blocks@.len() ==> (#[trigger] self.blocks@[i]).spans@.len()
                == self.blocks@[i].instructions@.len()
    }

    pub fn alloc_register(&mut self) -> (r: Register)
        ensures
            r == Register(old(self).next_register),
            final(self).next_register == next_id(old(self).next_register),
            final(self).register_types@ == old(self).register_types@.push(TypeId(4)),
            final(self).blocks == old(self).blocks,
            final(self).current_instructions == old(self).current_instructions,
            final(self).current_spans == old(self).current_spans,
            final(self).current_block_id == old(self).current_block_id,
            final(self).next_block_id == old(self).next_block_id,
            final(self).locals == old(self).locals,
            final(self).local_types == old(self).local_types,
    {
        self.alloc_typed_register(TypeId(4))
    }

    pub fn alloc_typed_register(&mut self, type_id: TypeId) -> (r: Register)
        ensures
            r == Register(old(self).next_register),
            final(self).next_register == next_id(old(self).next_register),
            final(self).register_types@ == old(self).register_types@.push(type_id),
            final(self).blocks == old(self).blocks,
            final(self).current_instructions == old(self).current_instructions,
            final(self).current_spans == old(self).current_spans,
            final(self).current_block_id == old(self).current_block_id,
            final(self).next_block_id == old(self).next_block_id,
            final(self).locals == old(self).locals,
            final(self).local_types == old(self).local_types,
    {
        let r = Register(self.next_register);
        self.next_register = self.next_register.wrapping_add(1);
        self.register_types.push(type_id);
        r
    }

    pub fn new_block_id(&mut self) -> (id: BlockId)
        ensures
            id == BlockId(old(self).next_block_id),
            final(self).next_block_id == next_id(old(self).next_block_id),
            final(self).next_register == old(self).next_register,
            final(self).register_types == old(self).register_types,
            final(self).blocks == old(self).blocks,
            final(self).current_instructions == old(self).current_instructions,
            final(self).current_spans == old(self).current_spans,
            final(self).current_block_id == old(self).current_block_id,
            final(self).locals == old(self).locals,
            final(self).local_types == old(self).local_types,
    {
        let id = BlockId(self.next_block_id);
        self.next_block_id = self.next_block_id.wrapping_add(1);
        id
    }

    /// End the current block with `terminator`, and go on in a fresh block.
    pub fn finish_block(&mut self, terminator: Terminator) -> (finished: BlockId)
        requires
            old(self).wf(),
        ensures
            final(self).wf(),
            finished == old(self).current_block_id,
            final(self).blocks@.len() == old(self).blocks@.len() + 1,
            forall|i: int|
                0 <= i < old(self).blocks@.len() ==> #[trigger] final(self).blocks@[i] == old(self).blocks@[i],
            final(self).blocks@.last().id == old(self).current_block_id,
            final(self).blocks@.last().instructions@ == old(self).current_instructions@,
            final(self).blocks@.last().terminator == terminator,
            final(self).current_instructions@.len() == 0,
            final(self).current_block_id == BlockId(old(self).next_block_id),
            final(self).next_block_id == next_id(old(self).next_block_id),
            final(self).next_register == old(self).next_register,
            final(self).register_types == old(self).register_types,
            final(self).locals == old(self).locals,
            final(self).local_types == old(self).local_types,
    {
        let mut instructions: Vec<Instruction> = Vec::new();
        let mut spans: Vec<Span> = Vec::new();
        std::mem::swap(&mut instructions, &mut self.current_instructions);
        std::mem::swap(&mut spans, &mut self.current_spans);
        let block = BasicBlock { id: self.current_block_id, instructions, spans, terminator };
        self.blocks.push(block);
        let old_id = self.current_block_id;
        self.current_block_id = self.new_block_id();
        old_id
    }

    /// Continue in the block `id`, with no instructions yet.
    pub fn start_block(&mut self, id: BlockId)
        requires
            old(self).wf(),
        ensures
            final(self).wf(),
            final(self).current_block_id == id,
            final(self).current_instructions@.len() == 0,
            final(self).blocks == old(self).blocks,
            final(self).next_block_id == old(self).next_block_id,
            final(self).next_register == old(self).next_register,
            final(self).register_types == old(self).register_types,
            final(self).locals == old(self).locals,
            final(self).local_types == old(self).local_types,
    {
        self.current_block_id = id;
        self.current_instructions.clear();
        self.current_spans.clear();
    }

    /// Append an instruction to the current block.
    pub fn push_inst(&mut self, inst: Instruction)
        requires
            old(self).wf(),
        ensures
            final(self).wf(),
            final(self).current_instructions@ == old(self).current_instructions@.push(inst),
            final(self).blocks == old(self).blocks,
            final(self).current_block_id == old(self).current_block_id,
            final(self).next_block_id == old(self).next_block_id,
            final(self).next_register == old(self).next_register,
            final(self).register_types == old(self).register_types,
            final(self).locals == old(self).locals,
            final(self).local_types == old(self).local_types,
    {
        self.current_instructions.push(inst);
        self.current_spans.push(self.current_span);
    }

    /// Release a value of a reference-counted type (a struct or an enum;
    /// strings are managed apart) that goes out of use.
    pub fn emit_release_for_type(&mut self, types: &TypeInterner, reg: Register, type_id: TypeId)
        requires
            old(self).wf(),
        ensures
            final(self).wf(),
            final(self).current_instructions@ == if kind_is_object(types.kind(type_id)) {
                old(self).current_instructions@.push(Instruction::Release(reg, Some(type_id)))
            } else {
                old(self).current_instructions@
            },
            final(self).blocks == old(self).blocks,
            final(self).current_block_id == old(self).current_block_id,
            final(self).next_block_id == old(self).next_block_id,
            final(self).next_register == old(self).next_register,
            final(self).register_types == old(self).register_types,
            final(self).locals == old(self).locals,
            final(self).local_types == old(self).local_types,
    {
        if types.is_object(type_id) {
            self.push_inst(Instruction::Release(reg, Some(type_id)));
        }
    }

    /// Retain a value of a reference-counted type (a struct or an enum).
    pub fn emit_retain_for_type(&mut self, types: &TypeInterner, reg: Register, type_id: TypeId)
        requires
            old(self).wf(),
        ensures
            final(self).wf(),
            final(self).current_instructions@ == if kind_is_object(types.kind(type_id)) {
                old(self).current_instructions@.push(Instruction::Retain(reg))
            } else {
                old(self).current_instructions@
            },
            final(self).blocks == old(self).blocks,
            final(self).current_block_id == old(self).current_block_id,
            final(self).next_block_id == old(self).next_block_id,
            final(self).next_register == old(self).next_register,
            final(self).register_types == old(self).register_types,
            final(self).locals == old(self).locals,
            final(self).local_types == old(self).local_types,
    {
        if types.is_object(type_id) {
            self.push_inst(Instruction::Retain(reg));
        }
    }
}

} // verus!
