use vstd::prelude::*;

use super::expr::{lemma_lower_frame_trans, lemma_lowered_value_same_end, lowered_value};
use crate::checker::args::{first_param_named, lemma_first_param_named};
use crate::checker::expr::{callable_names, callable_start};
use super::{converted_last, defined_last, joins_two, lower_frame, stores_into, unit_value, value_last, FunctionLowerCtx, Lowerer};
use crate::ast::{CallArg, Expr, Module, SpannedExpr};
use crate::checker::{str_is, FunctionKind, FunctionSig};
use crate::intern::Symbol;
use crate::ir::{ConstValue, FunctionRef, Instruction, Register};
use crate::scoped_locals::{find_binding, scope_get};
use crate::types::{field_index, kind_is_struct, PrimitiveType, TypeId, TypeKind};

verus! {

/// The last instruction of the current block is a call whose arguments of
/// a struct type (parameters from `skip` on of `sig`) were retained before
/// it, in the same block.
pub open spec fn retains_struct_args(l: Lowerer, sig: FunctionSig, skip: int, c: FunctionLowerCtx) -> bool {
    &&& c.current_instructions@.len() > 0
    &&& c.current_instructions@.last() matches Instruction::Call(_, _, a) && forall|i: int|
        skip <= i < sig.params@.len() && kind_is_struct(l.typer.types.kind(#[trigger] sig.params@[i].1)) && i
            - skip < a@.len() ==> c.current_instructions@.contains(Instruction::Retain(a@[i - skip]))
}

/// A call of a user-defined function retains its struct arguments.
pub open spec fn call_retains(l: Lowerer, e: SpannedExpr, c: FunctionLowerCtx) -> bool {
    match e.node {
        Expr::Call { callee, .. } => match callee.node {
            Expr::Ident(name) => match l.typer.functions.lookup(name@) {
                Some(sig) => sig.kind == FunctionKind::UserDefined ==> retains_struct_args(l, sig, 0, c),
                None => true,
            },
            _ => true,
        },
        _ => true,
    }
}

/// A call of the string built-ins with an argument: `__str_ptr` sets `r`
/// to the address of the string's bytes and `__str_len` to its length, by
/// the last instruction of the current block.
pub open spec fn string_builtin(name: Seq<char>, nargs: int, c: FunctionLowerCtx, r: Register) -> bool {
    &&& (name == "__str_ptr"@ && nargs > 0) ==> (c.current_instructions@.last() matches Instruction::StringPtr(
        d,
        _,
    ) && d == r)
    &&& (name == "__str_len"@ && nargs > 0) ==> (c.current_instructions@.last() matches Instruction::StringLen(
        d,
        _,
    ) && d == r)
}

/// A call of a built-in function registered under its name is lowered as
/// `string_builtin` says.
pub open spec fn builtin_call_value(l: Lowerer, e: SpannedExpr, c: FunctionLowerCtx, r: Register) -> bool {
    match e.node {
        Expr::Call { callee, args } => match callee.node {
            Expr::Ident(name) => match l.typer.functions.lookup(name@) {
                Some(sig) => sig.kind == FunctionKind::Builtin ==> string_builtin(name@, args@.len() as int, c, r),
                None => true,
            },
            _ => true,
        },
        _ => true,
    }
}

/// The arguments of a call of `sig` (its first `skip` parameters aside)
/// are all positional and there is one for each parameter.
pub open spec fn all_positional(sig: FunctionSig, args: Seq<CallArg>, skip: int) -> bool {
    &&& forall|j: int| 0 <= j < args.len() ==> (#[trigger] args[j]).name is None
    &&& skip <= sig.params@.len()
    &&& args.len() == sig.params@.len() - skip
}

/// A call of a user-defined or extern function registered under its name,
/// with one positional argument for each parameter.
pub open spec fn positional_call(l: Lowerer, e: SpannedExpr) -> bool {
    match e.node {
        Expr::Call { callee, args } => match callee.node {
            Expr::Ident(name) => match l.typer.functions.lookup(name@) {
                Some(sig) => sig.kind != FunctionKind::Builtin && all_positional(sig, args@, 0),
                None => false,
            },
            _ => false,
        },
        _ => false,
    }
}

/// A call with one positional argument for each parameter is lowered as a
/// call instruction, last in the current block, on the registers the
/// arguments' values were lowered into.
pub open spec fn call_args_in(l: Lowerer, e: SpannedExpr, c0: FunctionLowerCtx, c1: FunctionLowerCtx) -> bool {
    match e.node {
        Expr::Call { args, .. } => positional_call(l, e) ==> (c1.current_instructions@.last() matches Instruction::Call(
            _,
            _,
            regs,
        ) && args_in(args@, regs@, c0, c1)),
        _ => true,
    }
}

/// Each argument's value was lowered into its register of `regs` on the
/// way from `c0` to `c1`.
pub open spec fn args_in(args: Seq<CallArg>, regs: Seq<Register>, c0: FunctionLowerCtx, c1: FunctionLowerCtx) -> bool {
    &&& regs.len() == args.len()
    &&& forall|i: int|
        #![trigger args[i]]
        0 <= i < args.len() ==> exists|h: (Lowerer, FunctionLowerCtx, FunctionLowerCtx)|
            #[trigger] lowered_value(h.0, args[i].value, h.1, h.2, regs[i]) && super::flows(c0, h.1) && super::flows(
                h.2,
                c1,
            )
}

/// Arguments lowered on the way to `c1` stay lowered on the way to `c2`.
proof fn lemma_args_in_flows(
    args: Seq<CallArg>,
    regs: Seq<Register>,
    c0: FunctionLowerCtx,
    c1: FunctionLowerCtx,
    c2: FunctionLowerCtx,
)
    requires
        args_in(args, regs, c0, c1),
        super::flows(c1, c2),
    ensures
        args_in(args, regs, c0, c2),
{
    assert forall|i: int| #![trigger args[i]] 0 <= i < args.len() implies exists|h: (Lowerer, FunctionLowerCtx, FunctionLowerCtx)|
        #[trigger] lowered_value(h.0, args[i].value, h.1, h.2, regs[i]) && super::flows(c0, h.1) && super::flows(
            h.2,
            c2,
        ) by {
        let h = choose|h: (Lowerer, FunctionLowerCtx, FunctionLowerCtx)|
            #[trigger] lowered_value(h.0, args[i].value, h.1, h.2, regs[i]) && super::flows(c0, h.1) && super::flows(
                h.2,
                c1,
            );
        super::expr::lemma_flows_trans(h.2, c1, c2);
    }
}

/// Where lowering started counts only through its blocks and instructions.
pub proof fn lemma_args_in_start(
    args: Seq<CallArg>,
    regs: Seq<Register>,
    a: FunctionLowerCtx,
    b: FunctionLowerCtx,
    c1: FunctionLowerCtx,
)
    requires
        args_in(args, regs, a, c1),
        a.blocks == b.blocks,
        a.current_instructions == b.current_instructions,
    ensures
        args_in(args, regs, b, c1),
{
    assert forall|i: int| #![trigger args[i]] 0 <= i < args.len() implies exists|h: (Lowerer, FunctionLowerCtx, FunctionLowerCtx)|
        #[trigger] lowered_value(h.0, args[i].value, h.1, h.2, regs[i]) && super::flows(b, h.1) && super::flows(
            h.2,
            c1,
        ) by {
        let h = choose|h: (Lowerer, FunctionLowerCtx, FunctionLowerCtx)|
            #[trigger] lowered_value(h.0, args[i].value, h.1, h.2, regs[i]) && super::flows(a, h.1) && super::flows(
                h.2,
                c1,
            );
        assert(super::flows(b, h.1));
    }
}

/// Which argument fills each parameter slot, and how many positional slots
/// are taken, once the first `k` arguments are matched: a named argument
/// takes the first slot of its name (replacing what was there), a
/// positional one the next positional slot while one is left.
pub open spec fn fill_slots(names: Seq<Seq<char>>, args: Seq<CallArg>, k: int) -> (Seq<Option<int>>, int)
    decreases k,
{
    if k <= 0 || k > args.len() {
        (Seq::new(names.len(), |i: int| None::<int>), 0)
    } else {
        let prev = fill_slots(names, args, k - 1);
        let a = k - 1;
        match args[a].name {
            Some(nm) => match first_param_named(names, nm@) {
                Some(p) => (prev.0.update(p, Some(a)), prev.1),
                None => prev,
            },
            None => if prev.1 < names.len() {
                (prev.0.update(prev.1, Some(a)), prev.1 + 1)
            } else {
                prev
            },
        }
    }
}

/// The default value lowering gives parameter `p` of the function
/// registered under `key` (with signature `sig`) when no argument fills it:
/// its default expression, when it has one and default values are still
/// expanded (`depth > 0`).
pub open spec fn param_default(module: Module, key: Seq<char>, sig: FunctionSig, p: int, depth: u32) -> Option<
    SpannedExpr,
> {
    if 0 <= p < sig.has_default@.len() && sig.has_default@[p] && depth > 0 {
        match super::params_for(module.items@, key) {
            Some(ps) => if p < ps@.len() {
                match ps@[p].default_value {
                    Some(d) => Some(*d),
                    None => None,
                }
            } else {
                None
            },
            None => None,
        }
    } else {
        None
    }
}

/// The register `r` holds a unit value set at some point of the lowering
/// from (`l0`, `c0`) to (`l1`, `c1`).
pub open spec fn unit_filled(l0: Lowerer, c0: FunctionLowerCtx, l1: Lowerer, c1: FunctionLowerCtx, r: Register) -> bool {
    exists|h: (Lowerer, FunctionLowerCtx, Lowerer, FunctionLowerCtx)| #[trigger] unit_at(l0, c0, l1, c1, r, h)
}

/// `r` was set to the unit value going from `h.1` to `h.3`, between
/// (`l0`, `c0`) and (`l1`, `c1`).
pub open spec fn unit_at(
    l0: Lowerer,
    c0: FunctionLowerCtx,
    l1: Lowerer,
    c1: FunctionLowerCtx,
    r: Register,
    h: (Lowerer, FunctionLowerCtx, Lowerer, FunctionLowerCtx),
) -> bool {
    &&& unit_value(h.3, r)
    &&& lower_frame(l0, h.0, c0, h.1)
    &&& lower_frame(h.2, l1, h.3, c1)
}

/// What a slot no argument fills holds: the lowered default value of its
/// parameter, or else the unit value.
pub open spec fn default_filled(
    l0: Lowerer,
    c0: FunctionLowerCtx,
    l1: Lowerer,
    c1: FunctionLowerCtx,
    d: Option<SpannedExpr>,
    r: Register,
) -> bool {
    match d {
        Some(e) => slot_filled(l0, c0, l1, c1, e, r),
        None => unit_filled(l0, c0, l1, c1, r),
    }
}

/// The register `r` holds the value of lowering `e` at some point of the
/// lowering from (`l0`, `c0`) to (`l1`, `c1`).
pub open spec fn slot_filled(
    l0: Lowerer,
    c0: FunctionLowerCtx,
    l1: Lowerer,
    c1: FunctionLowerCtx,
    e: SpannedExpr,
    r: Register,
) -> bool {
    exists|h: (Lowerer, FunctionLowerCtx, Lowerer, FunctionLowerCtx)| #[trigger] lowered_at(l0, c0, l1, c1, e, r, h)
}

/// `e` was lowered into `r` from the lowerer `h.0` and the state `h.1` to
/// the lowerer `h.2` and the state `h.3`, between (`l0`, `c0`) and (`l1`,
/// `c1`).
pub open spec fn lowered_at(
    l0: Lowerer,
    c0: FunctionLowerCtx,
    l1: Lowerer,
    c1: FunctionLowerCtx,
    e: SpannedExpr,
    r: Register,
    h: (Lowerer, FunctionLowerCtx, Lowerer, FunctionLowerCtx),
) -> bool {
    &&& lowered_value(h.0, e, h.1, h.3, r)
    &&& lower_frame(l0, h.0, c0, h.1)
    &&& lower_frame(h.2, l1, h.3, c1)
}

/// What was lowered between two points stays lowered as lowering goes on.
proof fn lemma_slot_filled_advance(
    l0: Lowerer,
    c0: FunctionLowerCtx,
    l1: Lowerer,
    c1: FunctionLowerCtx,
    l2: Lowerer,
    c2: FunctionLowerCtx,
    e: SpannedExpr,
    r: Register,
)
    requires
        slot_filled(l0, c0, l1, c1, e, r),
        lower_frame(l1, l2, c1, c2),
    ensures
        slot_filled(l0, c0, l2, c2, e, r),
{
    let h = choose|h: (Lowerer, FunctionLowerCtx, Lowerer, FunctionLowerCtx)| #[trigger] lowered_at(l0, c0, l1, c1, e, r, h);
    lemma_lower_frame_trans(h.2, l1, l2, h.3, c1, c2);
    assert(lowered_at(l0, c0, l2, c2, e, r, h));
}

/// A default slot's value stays as lowering goes on.
proof fn lemma_default_filled_advance(
    l0: Lowerer,
    c0: FunctionLowerCtx,
    l1: Lowerer,
    c1: FunctionLowerCtx,
    l2: Lowerer,
    c2: FunctionLowerCtx,
    d: Option<SpannedExpr>,
    r: Register,
)
    requires
        default_filled(l0, c0, l1, c1, d, r),
        lower_frame(l1, l2, c1, c2),
    ensures
        default_filled(l0, c0, l2, c2, d, r),
{
    match d {
        Some(e) => {
            lemma_slot_filled_advance(l0, c0, l1, c1, l2, c2, e, r);
        },
        None => {
            let h = choose|h: (Lowerer, FunctionLowerCtx, Lowerer, FunctionLowerCtx)| #[trigger] unit_at(l0, c0, l1, c1, r, h);
            lemma_lower_frame_trans(h.2, l1, l2, h.3, c1, c2);
            assert(unit_at(l0, c0, l2, c2, r, h));
        },
    }
}

/// The slots' states stay as lowering goes on.
proof fn lemma_slots_advance(
    l0: Lowerer,
    c0: FunctionLowerCtx,
    l1: Lowerer,
    c1: FunctionLowerCtx,
    l2: Lowerer,
    c2: FunctionLowerCtx,
    args: Seq<CallArg>,
    resolved: Seq<Option<Register>>,
    src: Seq<Option<int>>,
    hist: Seq<(Lowerer, FunctionLowerCtx, Lowerer, FunctionLowerCtx)>,
)
    requires
        lower_frame(l1, l2, c1, c2),
        resolved.len() == src.len(),
        hist.len() == src.len(),
        forall|j: int| 0 <= j < src.len() ==> slot_state(l0, c0, l1, c1, args, #[trigger] resolved[j], src[j], hist[j]),
    ensures
        forall|j: int| 0 <= j < src.len() ==> slot_state(l0, c0, l2, c2, args, #[trigger] resolved[j], src[j], hist[j]),
{
    assert forall|j: int| 0 <= j < src.len() implies slot_state(l0, c0, l2, c2, args, #[trigger] resolved[j], src[j], hist[j]) by {
        assert(slot_state(l0, c0, l1, c1, args, resolved[j], src[j], hist[j]));
        if src[j] is Some {
            let h = hist[j];
            lemma_lower_frame_trans(h.2, l1, l2, h.3, c1, c2);
        }
    }
}

/// The state of one slot while arguments are matched: a slot that an
/// argument fills holds the register lowering that argument gave.
pub open spec fn slot_state(
    l0: Lowerer,
    c0: FunctionLowerCtx,
    l1: Lowerer,
    c1: FunctionLowerCtx,
    args: Seq<CallArg>,
    reg: Option<Register>,
    src: Option<int>,
    h: (Lowerer, FunctionLowerCtx, Lowerer, FunctionLowerCtx),
) -> bool {
    match src {
        Some(a) => 0 <= a < args.len() && reg is Some && lowered_at(l0, c0, l1, c1, args[a].value, reg.unwrap(), h),
        None => reg is None,
    }
}


/// The default value written for parameter `param_idx` of the function
/// registered under `key`, if it has one.
pub fn default_expr<'a>(module: &'a Module, key: &String, param_idx: usize) -> (r: Option<&'a SpannedExpr>)
    ensures
        r == match super::params_for(module.items@, key@) {
            Some(ps) => if param_idx < ps@.len() {
                match ps@[param_idx as int].default_value {
                    Some(d) => Some(&*d),
                    None => None,
                }
            } else {
                None
            },
            None => None,
        },
{
    match Lowerer::find_params(module, key) {
        Some(ps) => {
            if param_idx < ps.len() {
                match &ps[param_idx].default_value {
                    Some(d) => Some(&**d),
                    None => None,
                }
            } else {
                None
            }
        },
        None => None,
    }
}

impl Lowerer {
    /// Lower each argument, in order, and return their registers.
    pub fn lower_args_all(
        &mut self,
        st: &mut FunctionLowerCtx,
        module: &Module,
        args: &Vec<CallArg>,
        depth: u32,
    ) -> (regs: Vec<Register>)
        requires
            old(self).wf(),
            old(st).wf(),
        ensures
            lower_frame(*old(self), *final(self), *old(st), *final(st)),
            regs@.len() == args@.len(),
            args_in(args@, regs@, *old(st), *final(st)),
        decreases depth, args, 0nat,
    {
        let ghost l0 = *self;
        let ghost c0 = *st;
        let mut regs: Vec<Register> = Vec::new();
        let mut i: usize = 0;
        while i < args.len()
            invariant
                i <= args@.len(),
                regs@.len() == i,
                lower_frame(l0, *self, c0, *st),
                args_in(args@.take(i as int), regs@, c0, *st),
            decreases args@.len() - i,
        {
            let ghost l1 = *self;
            let ghost c1 = *st;
            let ghost rs = regs@;
            let r = self.lower_expr(st, module, &args[i].value, depth);
            proof {
                lemma_lower_frame_trans(l0, l1, *self, c0, c1, *st);
                assert(super::flows(c0, c1));
                assert(super::flows(c1, *st));
                lemma_args_in_flows(args@.take(i as int), rs, c0, c1, *st);
            }
            regs.push(r);
            proof {
                let h = (l1, c1, *st);
                assert(lowered_value(h.0, args@[i as int].value, h.1, h.2, r));
                assert(super::flows(*st, *st));
                assert forall|j: int| #![trigger args@.take(i + 1)[j]] 0 <= j < i + 1 implies exists|h: (Lowerer, FunctionLowerCtx, FunctionLowerCtx)|
                    #[trigger] lowered_value(h.0, args@.take(i + 1)[j].value, h.1, h.2, regs@[j]) && super::flows(c0, h.1)
                        && super::flows(h.2, *st) by {
                    if j < i {
                        assert(args@.take(i + 1)[j] == args@.take(i as int)[j]);
                        assert(regs@[j] == rs[j]);
                    } else {
                        assert(lowered_value(h.0, args@.take(i + 1)[j].value, h.1, h.2, regs@[j]) && super::flows(c0, h.1)
                            && super::flows(h.2, *st));
                    }
                }
            }
            i = i + 1;
        }
        proof {
            assert(args@.take(args@.len() as int) =~= args@);
        }
        proof {
            if args@.len() == 0 {
                assert(lower_frame(l0, *self, c0, *st));
            }
        }
        regs
    }

    /// A call: a built-in, an extern or a user-defined function by name, or
    /// the constructor of a tuple struct.
    pub fn lower_call(&mut self, st: &mut FunctionLowerCtx, module: &Module, e: &SpannedExpr, depth: u32) -> (r: Register)
        requires
            old(self).wf(),
            old(st).wf(),
        ensures
            lower_frame(*old(self), *final(self), *old(st), *final(st)),
            value_last(*final(st), r),
            call_retains(*old(self), *e, *final(st)),
            builtin_call_value(*old(self), *e, *final(st), r),
            call_args_in(*old(self), *e, *old(st), *final(st)),
        decreases depth, e, 2nat,
    {
        let ghost l0 = *self;
        let ghost c0 = *st;
        let (callee, args) = match &e.node {
            Expr::Call { callee, args } => (callee, args),
            _ => {
                return self.emit_unit(st);
            },
        };
        let name = match &callee.node {
            Expr::Ident(name) => name,
            _ => {
                return self.emit_unit(st);
            },
        };
        let found = match self.typer.functions.get_by_key(name) {
            Some(sig) => Some(sig.duplicate()),
            None => None,
        };
        if let Some(sig) = found {
            let ghost orig = l0.typer.functions.lookup(name@).unwrap();
            proof {
                let v1 = crate::checker::params_view(sig.params@);
                let v2 = crate::checker::params_view(orig.params@);
                assert(v1.len() == sig.params@.len() && v2.len() == orig.params@.len());
                assert forall|i: int| 0 <= i < sig.params@.len() implies #[trigger] sig.params@[i].1 == orig.params@[i].1 by {
                    assert(v1[i] == v2[i]);
                }
            }
            return match sig.kind {
                FunctionKind::Builtin => self.lower_builtin_call(st, module, name, args, depth),
                FunctionKind::Extern => self.lower_resolved_call(st, module, name, &sig, args, true, 0, depth),
                FunctionKind::UserDefined => {
                    let r = self.lower_resolved_call(st, module, name, &sig, args, false, 0, depth);
                    proof {
                        assert(sig.params@.len() == orig.params@.len());
                        let ci = st.current_instructions@;
                        if let Instruction::Call(_, _, a) = ci.last() {
                            assert forall|i: int|
                                0 <= i < orig.params@.len() && kind_is_struct(l0.typer.types.kind(#[trigger] orig.params@[i].1))
                                    && i - 0 < a@.len() implies ci.contains(Instruction::Retain(a@[i - 0])) by {
                                assert(sig.params@[i].1 == orig.params@[i].1);
                            }
                        }
                        assert(retains_struct_args(l0, orig, 0, *st));
                    }
                    r
                },
            };
        }
        let sty = match find_binding(&self.typer.structs, name) {
            Some(i) => Some(self.typer.structs[i].1),
            None => None,
        };
        match sty {
            Some(t) => {
                let dst = st.alloc_typed_register(t);
                st.push_inst(Instruction::Alloc(dst, t));
                let ghost c1 = *st;
                let regs = self.lower_args_all(st, module, args, depth);
                let ghost l2 = *self;
                let ghost c2 = *st;
                let mut i: usize = 0;
                while i < regs.len()
                    invariant
                        i <= regs@.len(),
                        st.wf(),
                        st.blocks == c2.blocks,
                        st.locals == c2.locals,
                        st.local_types == c2.local_types,
                        st.register_types == c2.register_types,
                        st.next_register == c2.next_register,
                        *self == l2,
                        super::current_kept(c2, *st),
                    decreases regs@.len() - i,
                {
                    let field = if i < u32::MAX as usize {
                        i as u32
                    } else {
                        0
                    };
                    st.push_inst(Instruction::Store(dst, field, regs[i]));
                    i = i + 1;
                }
                st.push_inst(Instruction::Retain(dst));
                proof {
                    assert(lower_frame(l0, l0, c0, c1));
                    lemma_lower_frame_trans(l0, l0, l2, c0, c1, c2);
                    assert(lower_frame(l2, *self, c2, *st));
                    lemma_lower_frame_trans(l0, l2, *self, c0, c2, *st);
                }
                dst
            },
            None => self.emit_unit(st),
        }
    }

    /// A call of a built-in function.  `__str_ptr` and `__str_len` become
    /// instructions; the string conversions, `panic`, `assert` and `exit` are
    /// calls into the runtime; any other built-in gives the unit value.
    pub fn lower_builtin_call(
        &mut self,
        st: &mut FunctionLowerCtx,
        module: &Module,
        name: &String,
        args: &Vec<CallArg>,
        depth: u32,
    ) -> (r: Register)
        requires
            old(self).wf(),
            old(st).wf(),
        ensures
            lower_frame(*old(self), *final(self), *old(st), *final(st)),
            defined_last(*final(st), r),
            string_builtin(name@, args@.len() as int, *final(st), r),
        decreases depth, args, 1nat,
    {
        let ghost l0 = *self;
        let ghost c0 = *st;
        let span = st.current_span;
        if str_is(name, "__str_ptr") || str_is(name, "__str_len") {
            if args.len() == 0 {
                return self.emit_unit(st);
            }
            let arg = self.lower_expr(st, module, &args[0].value, depth);
            let ghost l1 = *self;
            let ghost c1 = *st;
            st.current_span = span;
            let dst = st.alloc_register();
            if str_is(name, "__str_ptr") {
                st.push_inst(Instruction::StringPtr(dst, arg));
            } else {
                st.push_inst(Instruction::StringLen(dst, arg));
            }
            proof {
                assert(lower_frame(l1, *self, c1, *st));
                lemma_lower_frame_trans(l0, l1, *self, c0, c1, *st);
                reveal_strlit("__str_ptr");
                reveal_strlit("__str_len");
                assert("__str_ptr"@[6] != "__str_len"@[6]);
                assert("__str_ptr"@ != "__str_len"@);
            }
            return dst;
        }
        let ret: Option<TypeId> = if str_is(name, "__str_concat") || str_is(name, "__i32_to_str") || str_is(
            name,
            "__i64_to_str",
        ) || str_is(name, "__f64_to_str") || str_is(name, "__bool_to_str") || str_is(name, "__char_to_str") {
            Some(TypeId(13))
        } else if str_is(name, "panic") || str_is(name, "exit") {
            Some(TypeId(17))
        } else if str_is(name, "assert") {
            Some(TypeId(0))
        } else {
            None
        };
        match ret {
            Some(t) => {
                let count: usize = if str_is(name, "panic") || str_is(name, "exit") {
                    1
                } else if str_is(name, "assert") {
                    2
                } else {
                    args.len()
                };
                if args.len() < count {
                    return self.emit_unit(st);
                }
                let regs = self.lower_args_prefix(st, module, args, count, depth);
                let ghost l1 = *self;
                let ghost c1 = *st;
                st.current_span = span;
                let sym = self.interner.intern(name.as_str());
                let dst = st.alloc_typed_register(t);
                st.push_inst(Instruction::Call(dst, FunctionRef::Builtin(sym), regs));
                proof {
                    assert(lower_frame(l1, *self, c1, *st));
                    lemma_lower_frame_trans(l0, l1, *self, c0, c1, *st);
                }
                dst
            },
            None => self.emit_unit(st),
        }
    }

    /// Lower the first `count` arguments.
    fn lower_args_prefix(
        &mut self,
        st: &mut FunctionLowerCtx,
        module: &Module,
        args: &Vec<CallArg>,
        count: usize,
        depth: u32,
    ) -> (regs: Vec<Register>)
        requires
            old(self).wf(),
            old(st).wf(),
            count <= args@.len(),
        ensures
            lower_frame(*old(self), *final(self), *old(st), *final(st)),
            regs@.len() == count,
        decreases depth, args, 0nat,
    {
        let ghost l0 = *self;
        let ghost c0 = *st;
        let mut regs: Vec<Register> = Vec::new();
        let mut i: usize = 0;
        while i < count
            invariant
                i <= count <= args@.len(),
                lower_frame(l0, *self, c0, *st),
                regs@.len() == i,
            decreases count - i,
        {
            let ghost l1 = *self;
            let ghost c1 = *st;
            let r = self.lower_expr(st, module, &args[i].value, depth);
            proof {
                lemma_lower_frame_trans(l0, l1, *self, c0, c1, *st);
            }
            regs.push(r);
            i = i + 1;
        }
        regs
    }

    /// Retain the struct arguments a callee will release (parameters from
    /// `skip` on, against the registers from `first` on).
    fn emit_caller_retains(&mut self, st: &mut FunctionLowerCtx, sig: &FunctionSig, skip: usize, regs: &Vec<Register>, first: usize)
        requires
            old(self).wf(),
            old(st).wf(),
        ensures
            lower_frame(*old(self), *final(self), *old(st), *final(st)),
            *final(self) == *old(self),
            final(st).blocks == old(st).blocks,
            final(st).locals == old(st).locals,
            final(st).local_types == old(st).local_types,
            forall|i: int|
                skip <= i < sig.params@.len() && kind_is_struct(old(self).typer.types.kind(#[trigger] sig.params@[i].1))
                    && first + (i - skip) < regs@.len() ==> final(st).current_instructions@.contains(
                    Instruction::Retain(regs@[first + (i - skip)]),
                ),
    {
        let mut i: usize = if skip < sig.params.len() {
            skip
        } else {
            sig.params.len()
        };
        while i < sig.params.len()
            invariant
                i <= sig.params@.len(),
                st.wf(),
                st.blocks == old(st).blocks,
                st.locals == old(st).locals,
                st.local_types == old(st).local_types,
                st.register_types == old(st).register_types,
                st.next_register == old(st).next_register,
                *self == *old(self),
                super::current_kept(*old(st), *st),
                skip < sig.params@.len() ==> skip <= i,
                forall|j: int|
                    skip <= j < i && kind_is_struct(self.typer.types.kind(#[trigger] sig.params@[j].1))
                        && first + (j - skip) < regs@.len() ==> st.current_instructions@.contains(
                        Instruction::Retain(regs@[first + (j - skip)]),
                    ),
            decreases sig.params@.len() - i,
        {
            let ghost before = st.current_instructions@;
            let n_regs = regs.len();
            if i >= skip && self.typer.types.is_struct(sig.params[i].1) && first <= usize::MAX - (i - skip)
                && first + (i - skip) < n_regs {
                let k = i - skip;
                st.push_inst(Instruction::Retain(regs[first + k]));
            }
            proof {
                assert forall|j: int|
                    skip <= j < i + 1 && kind_is_struct(self.typer.types.kind(#[trigger] sig.params@[j].1))
                        && first + (j - skip) < regs@.len() implies st.current_instructions@.contains(
                        Instruction::Retain(regs@[first + (j - skip)]),
                    ) by {
                    let want = Instruction::Retain(regs@[first + (j - skip)]);
                    if j < i {
                        let m = choose|m: int| 0 <= m < before.len() && before[m] == want;
                        assert(st.current_instructions@[m] == want);
                    } else {
                        assert(st.current_instructions@[before.len() as int] == want);
                    }
                }
            }
            i = i + 1;
        }
    }

    /// A call of a user-defined or extern function: its arguments are
    /// matched to the parameters after the first `skip` and missing ones take
    /// their default values.
    pub fn lower_resolved_call(
        &mut self,
        st: &mut FunctionLowerCtx,
        module: &Module,
        name: &String,
        sig: &FunctionSig,
        args: &Vec<CallArg>,
        is_extern: bool,
        skip: usize,
        depth: u32,
    ) -> (r: Register)
        requires
            old(self).wf(),
            old(st).wf(),
        ensures
            lower_frame(*old(self), *final(self), *old(st), *final(st)),
            defined_last(*final(st), r),
            !is_extern ==> retains_struct_args(*old(self), *sig, skip as int, *final(st)),
            all_positional(*sig, args@, skip as int) ==> (final(st).current_instructions@.last() matches Instruction::Call(
                _,
                _,
                regs,
            ) && args_in(args@, regs@, *old(st), *final(st))),
        decreases depth, args, 1nat,
    {
        let ghost l0 = *self;
        let ghost c0 = *st;
        let mut has_named = false;
        let mut i: usize = 0;
        while i < args.len()
            invariant
                i <= args@.len(),
                !has_named ==> forall|j: int| 0 <= j < i ==> (#[trigger] args@[j]).name is None,
                has_named ==> exists|j: int| 0 <= j < i && (#[trigger] args@[j]).name is Some,
            decreases args@.len() - i,
        {
            if args[i].name.is_some() {
                has_named = true;
                assert(args@[i as int].name is Some);
            }
            i = i + 1;
        }
        let all_provided = skip <= sig.params.len() && args.len() == sig.params.len() - skip;
        let span = st.current_span;
        let regs = if !has_named && all_provided {
            self.lower_args_all(st, module, args, depth)
        } else {
            self.resolve_call_args(st, module, name, sig, args, skip, depth)
        };
        let ghost l1 = *self;
        let ghost c1 = *st;
        st.current_span = span;
        if !is_extern {
            self.emit_caller_retains(st, sig, skip, &regs, 0);
        }
        let sym = self.interner.intern(name.as_str());
        let func_ref = if is_extern {
            FunctionRef::Extern(sym)
        } else {
            FunctionRef::Named(sym)
        };
        let ghost c2 = *st;
        let dst = st.alloc_typed_register(sig.return_type);
        let ghost rv = regs@;
        st.push_inst(Instruction::Call(dst, func_ref, regs));
        proof {
            assert(lower_frame(l1, *self, c1, *st));
            lemma_lower_frame_trans(l0, l1, *self, c0, c1, *st);
            if all_positional(*sig, args@, skip as int) {
                assert(!has_named && all_provided);
                assert(super::flows(c1, *st));
                lemma_args_in_flows(args@, rv, c0, c1, *st);
            }
            if !is_extern {
                assert(crate::checker::typing::ctx_of(l1.typer) == crate::checker::typing::ctx_of(l0.typer));
                assert(l1.typer.types.kinds() == l0.typer.types.kinds());
                let ci = st.current_instructions@;
                assert forall|i: int|
                    skip <= i < sig.params@.len() && kind_is_struct(l0.typer.types.kind(#[trigger] sig.params@[i].1))
                        && i - skip < rv.len() implies ci.contains(Instruction::Retain(rv[i - skip])) by {
                    assert(l1.typer.types.kind(sig.params@[i].1) == l0.typer.types.kind(sig.params@[i].1));
                    assert(c2.current_instructions@.contains(Instruction::Retain(rv[i - skip])));
                    let m = choose|m: int|
                        0 <= m < c2.current_instructions@.len() && c2.current_instructions@[m] == Instruction::Retain(
                            rv[i - skip],
                        );
                    assert(ci[m] == c2.current_instructions@[m]);
                }
            }
        }
        dst
    }

    /// Match the arguments to the parameters after the first `skip`: leading
    /// positional arguments fill parameters in order; then a named argument
    /// fills the parameter of its name, and a positional one the next
    /// position.  A parameter left without an argument takes its default
    /// value, or the unit value.
    pub fn resolve_call_args(
        &mut self,
        st: &mut FunctionLowerCtx,
        module: &Module,
        fn_key: &String,
        sig: &FunctionSig,
        args: &Vec<CallArg>,
        skip: usize,
        depth: u32,
    ) -> (regs: Vec<Register>)
        requires
            old(self).wf(),
            old(st).wf(),
        ensures
            lower_frame(*old(self), *final(self), *old(st), *final(st)),
            skip <= sig.params@.len() ==> regs@.len() == sig.params@.len() - skip,
            regs@.len() == callable_names(*sig, skip).len(),
            forall|i: int|
                0 <= i < regs@.len() ==> match #[trigger] fill_slots(callable_names(*sig, skip), args@, args@.len() as int).0[i] {
                    Some(a) => 0 <= a < args@.len() && slot_filled(
                        *old(self),
                        *old(st),
                        *final(self),
                        *final(st),
                        args@[a].value,
                        regs@[i],
                    ),
                    None => default_filled(
                        *old(self),
                        *old(st),
                        *final(self),
                        *final(st),
                        param_default(*module, fn_key@, *sig, callable_start(*sig, skip) + i, depth),
                        regs@[i],
                    ),
                },
        decreases depth, args, 0nat,
    {
        let ghost l0 = *self;
        let ghost c0 = *st;
        let ghost names = callable_names(*sig, skip);
        let start = if skip < sig.params.len() {
            skip
        } else {
            sig.params.len()
        };
        let n = sig.params.len() - start;
        let ghost none_hist: (Lowerer, FunctionLowerCtx, Lowerer, FunctionLowerCtx) = (l0, c0, l0, c0);
        let ghost mut hist: Seq<(Lowerer, FunctionLowerCtx, Lowerer, FunctionLowerCtx)> = Seq::new(
            n as nat,
            |i: int| none_hist,
        );
        let mut resolved: Vec<Option<Register>> = Vec::new();
        let mut i: usize = 0;
        while i < n
            invariant
                i <= n,
                resolved@.len() == i,
                forall|j: int| 0 <= j < i ==> resolved@[j] is None,
            decreases n - i,
        {
            resolved.push(None);
            i = i + 1;
        }
        proof {
            assert(names.len() == n);
            assert(fill_slots(names, args@, 0).0 =~= Seq::new(n as nat, |i: int| None::<int>));
        }
        let mut positional: usize = 0;
        let mut a: usize = 0;
        while a < args.len()
            invariant
                a <= args@.len(),
                start + n == sig.params@.len(),
                start == callable_start(*sig, skip),
                names == callable_names(*sig, skip),
                names.len() == n,
                resolved@.len() == n,
                hist.len() == n,
                lower_frame(l0, *self, c0, *st),
                positional as int == fill_slots(names, args@, a as int).1,
                fill_slots(names, args@, a as int).0.len() == n,
                forall|k: int| 0 <= k < a ==> (#[trigger] args@[k]).name is None,
                forall|j: int|
                    0 <= j < n ==> slot_state(
                        l0,
                        c0,
                        *self,
                        *st,
                        args@,
                        #[trigger] resolved@[j],
                        fill_slots(names, args@, a as int).0[j],
                        hist[j],
                    ),
            decreases args@.len() - a,
        {
            if args[a].name.is_some() {
                break;
            }
            let ghost fs0 = fill_slots(names, args@, a as int);
            if positional < n {
                let ghost l1 = *self;
                let ghost c1 = *st;
                let r = self.lower_expr(st, module, &args[a].value, depth);
                proof {
                    lemma_lower_frame_trans(l0, l1, *self, c0, c1, *st);
                    lemma_slots_advance(l0, c0, l1, c1, *self, *st, args@, resolved@, fs0.0, hist);
                    hist = hist.update(positional as int, (l1, c1, *self, *st));
                }
                resolved.set(positional, Some(r));
                positional = positional + 1;
                proof {
                    assert(fill_slots(names, args@, a + 1).0 =~= fs0.0.update(positional - 1, Some(a as int)));
                    assert forall|j: int| 0 <= j < n implies slot_state(
                        l0,
                        c0,
                        *self,
                        *st,
                        args@,
                        #[trigger] resolved@[j],
                        fill_slots(names, args@, a + 1).0[j],
                        hist[j],
                    ) by {
                        if j == positional - 1 {
                            assert(resolved@[j] == Some(r));
                        }
                    }
                }
            }
            a = a + 1;
        }
        while a < args.len()
            invariant
                a <= args@.len(),
                start + n == sig.params@.len(),
                start == callable_start(*sig, skip),
                names == callable_names(*sig, skip),
                names.len() == n,
                resolved@.len() == n,
                hist.len() == n,
                lower_frame(l0, *self, c0, *st),
                positional as int == fill_slots(names, args@, a as int).1,
                fill_slots(names, args@, a as int).0.len() == n,
                forall|j: int|
                    0 <= j < n ==> slot_state(
                        l0,
                        c0,
                        *self,
                        *st,
                        args@,
                        #[trigger] resolved@[j],
                        fill_slots(names, args@, a as int).0[j],
                        hist[j],
                    ),
            decreases args@.len() - a,
        {
            let ghost fs0 = fill_slots(names, args@, a as int);
            match &args[a].name {
                Some(arg_name) => {
                    let mut pos: Option<usize> = None;
                    let mut q: usize = 0;
                    while q < n
                        invariant
                            q <= n,
                            start + n == sig.params@.len(),
                            start + n == sig.params.len(),
                            names == callable_names(*sig, skip),
                            names.len() == n,
                            start == callable_start(*sig, skip),
                            pos matches Some(p) ==> p < n,
                            pos == match first_param_named(names.take(q as int), arg_name@) {
                                Some(p) => Some(p as usize),
                                None => None::<usize>,
                            },
                        decreases n - q,
                    {
                        proof {
                            assert(names.take(q + 1).drop_last() =~= names.take(q as int));
                            assert(names[q as int] == sig.params@[start + q].0@);
                        }
                        if pos.is_none() && sig.params[start + q].0 == *arg_name {
                            pos = Some(q);
                        }
                        q = q + 1;
                    }
                    proof {
                        assert(names.take(n as int) =~= names);
                        lemma_first_param_named(names, arg_name@);
                    }
                    if let Some(p) = pos {
                        let ghost l1 = *self;
                        let ghost c1 = *st;
                        let r = self.lower_expr(st, module, &args[a].value, depth);
                        proof {
                            lemma_lower_frame_trans(l0, l1, *self, c0, c1, *st);
                            lemma_slots_advance(l0, c0, l1, c1, *self, *st, args@, resolved@, fs0.0, hist);
                            hist = hist.update(p as int, (l1, c1, *self, *st));
                        }
                        resolved.set(p, Some(r));
                        proof {
                            assert(fill_slots(names, args@, a + 1).0 =~= fs0.0.update(p as int, Some(a as int)));
                            assert forall|j: int| 0 <= j < n implies slot_state(
                                l0,
                                c0,
                                *self,
                                *st,
                                args@,
                                #[trigger] resolved@[j],
                                fill_slots(names, args@, a + 1).0[j],
                                hist[j],
                            ) by {
                                if j == p {
                                    assert(resolved@[j] == Some(r));
                                }
                            }
                        }
                    } else {
                        proof {
                            assert(fill_slots(names, args@, a + 1) == fs0);
                        }
                    }
                },
                None => {
                    if positional < n {
                        let ghost l1 = *self;
                        let ghost c1 = *st;
                        let r = self.lower_expr(st, module, &args[a].value, depth);
                        proof {
                            lemma_lower_frame_trans(l0, l1, *self, c0, c1, *st);
                            lemma_slots_advance(l0, c0, l1, c1, *self, *st, args@, resolved@, fs0.0, hist);
                            hist = hist.update(positional as int, (l1, c1, *self, *st));
                        }
                        resolved.set(positional, Some(r));
                        positional = positional + 1;
                        proof {
                            assert(fill_slots(names, args@, a + 1).0 =~= fs0.0.update(positional - 1, Some(a as int)));
                            assert forall|j: int| 0 <= j < n implies slot_state(
                                l0,
                                c0,
                                *self,
                                *st,
                                args@,
                                #[trigger] resolved@[j],
                                fill_slots(names, args@, a + 1).0[j],
                                hist[j],
                            ) by {
                                if j == positional - 1 {
                                    assert(resolved@[j] == Some(r));
                                }
                            }
                        }
                    } else {
                        proof {
                            assert(fill_slots(names, args@, a + 1) == fs0);
                        }
                    }
                },
            }
            a = a + 1;
        }
        let ghost fin = fill_slots(names, args@, args@.len() as int).0;
        let mut regs: Vec<Register> = Vec::new();
        let mut i: usize = 0;
        while i < n
            invariant
                i <= n,
                start + n == sig.params@.len(),
                start + n == sig.params.len(),
                names.len() == n,
                resolved@.len() == n,
                hist.len() == n,
                fin.len() == n,
                regs@.len() == i,
                lower_frame(l0, *self, c0, *st),
                forall|j: int| 0 <= j < n ==> slot_state(l0, c0, *self, *st, args@, #[trigger] resolved@[j], fin[j], hist[j]),
                start == callable_start(*sig, skip),
                forall|j: int|
                    0 <= j < i ==> match #[trigger] fin[j] {
                        Some(a) => 0 <= a < args@.len() && slot_filled(l0, c0, *self, *st, args@[a].value, regs@[j]),
                        None => default_filled(
                            l0,
                            c0,
                            *self,
                            *st,
                            param_default(*module, fn_key@, *sig, start + j, depth),
                            regs@[j],
                        ),
                    },
            decreases n - i,
        {
            let ghost l1 = *self;
            let ghost c1 = *st;
            let r = match resolved[i] {
                Some(r) => r,
                None => {
                    let has_default = start + i < sig.has_default.len() && sig.has_default[start + i];
                    match default_expr(module, fn_key, start + i) {
                        Some(d) if has_default && depth > 0 => {
                            let r = self.lower_expr(st, module, d, depth - 1);
                            proof {
                                assert(lower_frame(*self, *self, *st, *st));
                                assert(lowered_at(l0, c0, *self, *st, *d, r, (l1, c1, *self, *st)));
                            }
                            r
                        },
                        _ => {
                            let r = self.emit_unit(st);
                            proof {
                                assert(lower_frame(*self, *self, *st, *st));
                                assert(unit_at(l0, c0, *self, *st, r, (l1, c1, *self, *st)));
                            }
                            r
                        },
                    }
                },
            };
            proof {
                lemma_lower_frame_trans(l0, l1, *self, c0, c1, *st);
                lemma_slots_advance(l0, c0, l1, c1, *self, *st, args@, resolved@, fin, hist);
                assert forall|j: int| 0 <= j < i && fin[j] is None implies default_filled(
                    l0,
                    c0,
                    *self,
                    *st,
                    param_default(*module, fn_key@, *sig, start + j, depth),
                    regs@[j],
                ) by {
                    lemma_default_filled_advance(l0, c0, l1, c1, *self, *st, param_default(*module, fn_key@, *sig, start + j, depth), regs@[j]);
                }
                assert(slot_state(l0, c0, *self, *st, args@, resolved@[i as int], fin[i as int], hist[i as int]));
                if let Some(a) = fin[i as int] {
                    assert(lowered_at(l0, c0, *self, *st, args@[a].value, r, hist[i as int]));
                }
                assert forall|j: int| 0 <= j < i implies match #[trigger] fin[j] {
                    Some(a) => 0 <= a < args@.len() && slot_filled(l0, c0, *self, *st, args@[a].value, regs@[j]),
                    None => true,
                } by {
                    if let Some(a) = fin[j] {
                        lemma_slot_filled_advance(l0, c0, l1, c1, *self, *st, args@[a].value, regs@[j]);
                    }
                }
            }
            regs.push(r);
            i = i + 1;
        }
        regs
    }

    /// A method call: the receiver's register is the first argument.
    pub fn lower_method_call(
        &mut self,
        st: &mut FunctionLowerCtx,
        module: &Module,
        key: &String,
        sig: &FunctionSig,
        self_reg: Register,
        args: &Vec<CallArg>,
        depth: u32,
    ) -> (r: Register)
        requires
            old(self).wf(),
            old(st).wf(),
        ensures
            lower_frame(*old(self), *final(self), *old(st), *final(st)),
            defined_last(*final(st), r),
            final(st).current_instructions@.last() matches Instruction::Call(_, _, a) && a@.len() > 0 && a@[0]
                == self_reg,
        decreases depth, args, 1nat,
    {
        let ghost l0 = *self;
        let ghost c0 = *st;
        let span = st.current_span;
        let rest = self.resolve_call_args(st, module, key, sig, args, 1, depth);
        let ghost l1 = *self;
        let ghost c1 = *st;
        let mut regs: Vec<Register> = Vec::new();
        regs.push(self_reg);
        let mut i: usize = 0;
        while i < rest.len()
            invariant
                i <= rest@.len(),
                regs@.len() == i + 1,
                regs@[0] == self_reg,
            decreases rest@.len() - i,
        {
            regs.push(rest[i]);
            i = i + 1;
        }
        st.current_span = span;
        self.emit_caller_retains(st, sig, 0, &regs, 0);
        let sym = self.interner.intern(key.as_str());
        let dst = st.alloc_typed_register(sig.return_type);
        st.push_inst(Instruction::Call(dst, FunctionRef::Named(sym), regs));
        proof {
            assert(lower_frame(l1, *self, c1, *st));
            lemma_lower_frame_trans(l0, l1, *self, c0, c1, *st);
        }
        dst
    }

    /// A binary operator on a type that defines it as a method: the left
    /// operand is the receiver, the right one the first argument.
    pub fn lower_operator_call(
        &mut self,
        st: &mut FunctionLowerCtx,
        module: &Module,
        key: &String,
        sig: &FunctionSig,
        e: &SpannedExpr,
        depth: u32,
    ) -> (r: Register)
        requires
            old(self).wf(),
            old(st).wf(),
        ensures
            lower_frame(*old(self), *final(self), *old(st), *final(st)),
            defined_last(*final(st), r),
            e.node is Binary ==> final(st).current_instructions@.last() is Call,
        decreases depth, e, 1nat,
    {
        let ghost l0 = *self;
        let ghost c0 = *st;
        let (left, right) = match &e.node {
            Expr::Binary { left, right, .. } => (left, right),
            _ => {
                return self.emit_unit(st);
            },
        };
        let span = st.current_span;
        let self_reg = self.lower_expr(st, module, left, depth);
        let mut regs: Vec<Register> = Vec::new();
        regs.push(self_reg);
        let total = sig.params.len();
        if total > 1 {
            let ghost l1 = *self;
            let ghost c1 = *st;
            let r = self.lower_expr(st, module, right, depth);
            proof {
                lemma_lower_frame_trans(l0, l1, *self, c0, c1, *st);
            }
            regs.push(r);
        }
        let mut p: usize = 2;
        while p < total
            invariant
                2 <= p,
                total == sig.params@.len(),
                lower_frame(l0, *self, c0, *st),
            decreases total - p,
        {
            let ghost l1 = *self;
            let ghost c1 = *st;
            let has_default = p < sig.has_default.len() && sig.has_default[p];
            let r = match default_expr(module, key, p) {
                Some(d) if has_default && depth > 0 => self.lower_expr(st, module, d, depth - 1),
                _ => self.emit_unit(st),
            };
            regs.push(r);
            proof {
                lemma_lower_frame_trans(l0, l1, *self, c0, c1, *st);
            }
            p = p + 1;
        }
        let ghost l2 = *self;
        let ghost c2 = *st;
        st.current_span = span;
        self.emit_caller_retains(st, sig, 0, &regs, 0);
        let sym = self.interner.intern(key.as_str());
        let dst = st.alloc_typed_register(sig.return_type);
        st.push_inst(Instruction::Call(dst, FunctionRef::Named(sym), regs));
        proof {
            assert(lower_frame(l2, *self, c2, *st));
            lemma_lower_frame_trans(l0, l2, *self, c0, c2, *st);
        }
        dst
    }

    /// A struct literal: allocate the struct and store each field value at
    /// the field's position.
    pub fn lower_struct_literal(
        &mut self,
        st: &mut FunctionLowerCtx,
        module: &Module,
        e: &SpannedExpr,
        depth: u32,
    ) -> (r: Register)
        requires
            old(self).wf(),
            old(st).wf(),
        ensures
            lower_frame(*old(self), *final(self), *old(st), *final(st)),
            e.node is StructLiteral && scope_get(old(self).typer.structs@, e.node->StructLiteral_name@) is Some
                ==> super::allocated_after(*old(st), *final(st), r),
            e.node is StructLiteral && scope_get(old(self).typer.structs@, e.node->StructLiteral_name@) is Some
                ==> r == Register(old(st).next_register) && if e.node->StructLiteral_fields@.len() == 0 {
                final(st).current_instructions@.last() matches Instruction::Alloc(d, _) && d == r
            } else {
                stores_into(*final(st), r)
            },
            e.node is StructLiteral && scope_get(old(self).typer.structs@, e.node->StructLiteral_name@) is None
                ==> unit_value(*final(st), r),
        decreases depth, e, 2nat,
    {
        let ghost l0 = *self;
        let ghost c0 = *st;
        let (name, fields) = match &e.node {
            Expr::StructLiteral { name, fields } => (name, fields),
            _ => {
                return self.emit_unit(st);
            },
        };
        let type_id = match find_binding(&self.typer.structs, name) {
            Some(i) => self.typer.structs[i].1,
            None => {
                return self.emit_unit(st);
            },
        };
        let struct_fields: Vec<(String, TypeId)> = match self.typer.types.resolve(type_id) {
            TypeKind::Struct { fields: fs, .. } => {
                let mut v: Vec<(String, TypeId)> = Vec::new();
                let mut i: usize = 0;
                while i < fs.len()
                    invariant
                        i <= fs@.len(),
                    decreases fs@.len() - i,
                {
                    v.push((fs[i].0.clone(), fs[i].1));
                    i = i + 1;
                }
                v
            },
            _ => Vec::new(),
        };
        let dst = st.alloc_register();
        st.push_inst(Instruction::Alloc(dst, type_id));
        let ghost c1 = *st;
        self.lower_field_stores(st, module, dst, &struct_fields, fields, depth);
        proof {
            assert(lower_frame(l0, l0, c0, c1));
            lemma_lower_frame_trans(l0, l0, *self, c0, c1, *st);
            let k = c0.current_instructions@.len() as int;
            assert(c1.current_instructions@[k] == Instruction::Alloc(dst, type_id));
            if st.blocks@.len() == c0.blocks@.len() {
                assert(st.current_instructions@[k] == c1.current_instructions@[k]);
            } else {
                assert(st.blocks@[c1.blocks@.len() as int].instructions@[k] == c1.current_instructions@[k]);
            }
        }
        dst
    }

    /// Store each field value of a struct literal into the struct.
    fn lower_field_stores(
        &mut self,
        st: &mut FunctionLowerCtx,
        module: &Module,
        dst: Register,
        struct_fields: &Vec<(String, TypeId)>,
        fields: &Vec<(String, SpannedExpr)>,
        depth: u32,
    )
        requires
            old(self).wf(),
            old(st).wf(),
        ensures
            lower_frame(*old(self), *final(self), *old(st), *final(st)),
            fields@.len() == 0 ==> final(st).current_instructions == old(st).current_instructions,
            fields@.len() > 0 ==> stores_into(*final(st), dst),
        decreases depth, fields, 0nat,
    {
        let ghost l0 = *self;
        let ghost c0 = *st;
        let mut i: usize = 0;
        while i < fields.len()
            invariant
                i <= fields@.len(),
                lower_frame(l0, *self, c0, *st),
                i == 0 ==> *st == c0,
                i > 0 ==> stores_into(*st, dst),
            decreases fields@.len() - i,
        {
            let ghost l1 = *self;
            let ghost c1 = *st;
            let val = self.lower_expr(st, module, &fields[i].1, depth);
            let idx = match field_index(struct_fields, &fields[i].0) {
                Some(j) => if j < u32::MAX as usize {
                    j as u32
                } else {
                    0
                },
                None => 0,
            };
            st.push_inst(Instruction::Store(dst, idx, val));
            proof {
                lemma_lower_frame_trans(l0, l1, *self, c0, c1, *st);
            }
            i = i + 1;
        }
    }

    /// Lower a template string: its first text part, then for each
    /// expression its value as a string (converted by the builtin for its
    /// type) and the text part after it, joined by `__str_concat` from left
    /// to right (empty parts after the first are left out).
    pub fn lower_template_string(
        &mut self,
        st: &mut FunctionLowerCtx,
        module: &Module,
        parts: &Vec<String>,
        exprs: &Vec<SpannedExpr>,
        depth: u32,
    ) -> (r: Register)
        requires
            old(self).wf(),
            old(st).wf(),
        ensures
            lower_frame(*old(self), *final(self), *old(st), *final(st)),
            defined_last(*final(st), r),
            exprs@.len() == 0 ==> final(st).current_instructions@.last() matches Instruction::Const(
                _,
                ConstValue::StringLiteral(_),
            ),
            exprs@.len() > 0 ==> joins_two(*final(st)),
        decreases depth, exprs, 2nat,
    {
        let ghost l0 = *self;
        let ghost c0 = *st;
        let first = if parts.len() > 0 {
            self.intern_string_constant(&parts[0])
        } else {
            self.intern_string_constant(&String::new())
        };
        let mut result = st.alloc_typed_register(TypeId(13));
        st.push_inst(Instruction::Const(result, ConstValue::StringLiteral(first)));
        let concat = self.interner.intern("__str_concat");
        let mut i: usize = 0;
        while i < exprs.len()
            invariant
                i <= exprs@.len(),
                lower_frame(l0, *self, c0, *st),
                defined_last(*st, result),
                i == 0 ==> st.current_instructions@.last() matches Instruction::Const(_, ConstValue::StringLiteral(_)),
                i > 0 ==> joins_two(*st),
            decreases exprs@.len() - i,
        {
            let ghost l1 = *self;
            let ghost c1 = *st;
            let piece = self.lower_expr_to_string(st, module, &exprs[i], depth);
            let ghost l2 = *self;
            let ghost c2 = *st;
            let joined = st.alloc_typed_register(TypeId(13));
            st.push_inst(Instruction::Call(joined, FunctionRef::Builtin(concat), vec![result, piece]));
            result = joined;
            if i + 1 < parts.len() && !str_is(&parts[i + 1], "") {
                let idx = self.intern_string_constant(&parts[i + 1]);
                let text = st.alloc_typed_register(TypeId(13));
                st.push_inst(Instruction::Const(text, ConstValue::StringLiteral(idx)));
                let joined2 = st.alloc_typed_register(TypeId(13));
                st.push_inst(Instruction::Call(joined2, FunctionRef::Builtin(concat), vec![result, text]));
                result = joined2;
            }
            proof {
                lemma_lower_frame_trans(l0, l1, l2, c0, c1, c2);
                lemma_lower_frame_trans(l0, l2, *self, c0, c2, *st);
            }
            i = i + 1;
        }
        result
    }

    /// The value of an expression as a string: a string as it is, any
    /// other value converted by the builtin for its type (`__i32_to_str`,
    /// `__i64_to_str`, `__f64_to_str`, `__bool_to_str`, `__char_to_str`;
    /// `__i32_to_str` for any other type).
    fn lower_expr_to_string(&mut self, st: &mut FunctionLowerCtx, module: &Module, e: &SpannedExpr, depth: u32) -> (r: Register)
        requires
            old(self).wf(),
            old(st).wf(),
        ensures
            lower_frame(*old(self), *final(self), *old(st), *final(st)),
            lowered_value(*old(self), *e, *old(st), *final(st), r) || converted_last(*final(st), r),
        decreases depth, e, 4nat,
    {
        let ghost l0 = *self;
        let ghost c0 = *st;
        let v = self.lower_expr(st, module, e, depth);
        let ghost l1 = *self;
        let ghost c1 = *st;
        let t = self.infer_expr_type(st, e);
        let ghost l2 = *self;
        let ghost c2 = *st;
        proof {
            lemma_lower_frame_trans(l0, l1, l2, c0, c1, c2);
        }
        if t == TypeId(13) {
            proof {
                lemma_lowered_value_same_end(l0, *e, c0, c1, *st, v);
            }
            return v;
        }
        let name = match self.typer.types.resolve(t) {
            TypeKind::Primitive(PrimitiveType::I32) => "__i32_to_str",
            TypeKind::Primitive(PrimitiveType::I64) => "__i64_to_str",
            TypeKind::Primitive(PrimitiveType::F64) => "__f64_to_str",
            TypeKind::Primitive(PrimitiveType::Bool) => "__bool_to_str",
            TypeKind::Primitive(PrimitiveType::Char) => "__char_to_str",
            _ => "__i32_to_str",
        };
        let sym = self.interner.intern(name);
        let dst = st.alloc_typed_register(TypeId(13));
        st.push_inst(Instruction::Call(dst, FunctionRef::Builtin(sym), vec![v]));
        proof {
            assert(lower_frame(l2, *self, c2, *st));
            lemma_lower_frame_trans(l0, l2, *self, c0, c2, *st);
        }
        dst
    }
}

} // verus!
