pub mod calls;
pub mod consts;
pub mod context;
pub mod control_flow;
pub mod defer;
pub mod expr;
pub mod patterns;

use vstd::prelude::*;

use crate::ast::{Block, Expr, ExternFnDecl, Item, Literal, Module, Param, SpannedExpr, SpannedItem, SpannedStmt, Stmt};
use crate::checker::collect::is_main_fn;
use crate::checker::items::defines_main;
use crate::checker::typing::ctx_of;
use crate::checker::{mangle, mangled, CheckedModule, Checker, FunctionTable, LocalInfo};
use crate::diagnostic::{decimal, to_decimal, DiagnosticBag};
use crate::intern::{StringInterner, Symbol};
use crate::ir::{BasicBlock, BlockId, Function, FunctionId, Instruction, Program, Register, Terminator};
use crate::scoped_locals::ScopedLocals;
use crate::span::{Span, Spanned};
use crate::symbol_table::SymbolTable;
use crate::types::{kind_is_object, KindView, TypeId};

pub use context::{next_id, FunctionLowerCtx, LoopContext};
use expr::{lemma_ends_in, lemma_flows_trans, lemma_lower_frame_trans, lemma_stmt_flows, lowered_value};

verus! {

/// Whether no string occurs twice.
pub open spec fn distinct_strings(s: Seq<String>) -> bool {
    forall|i: int, j: int| 0 <= i < j < s.len() ==> s[i]@ != s[j]@
}

/// The parameters a method of an impl block for `owner` registers under
/// `key`: the last method whose mangled name it is.
pub open spec fn methods_params(owner: Seq<char>, ms: Seq<SpannedItem>, key: Seq<char>) -> Option<
    Vec<Param>,
>
    decreases ms.len(),
{
    if ms.len() == 0 {
        None
    } else {
        match ms.last().node {
            Item::FnDef { name, params, .. } => if mangled(owner, name@) == key {
                Some(params)
            } else {
                methods_params(owner, ms.drop_last(), key)
            },
            _ => methods_params(owner, ms.drop_last(), key),
        }
    }
}

/// The parameters an item registers under `key`, if it registers that name.
pub open spec fn item_params(it: SpannedItem, key: Seq<char>) -> Option<Vec<Param>> {
    match it.node {
        Item::FnDef { name, params, .. } => if name@ == key {
            Some(params)
        } else {
            None
        },
        Item::ImplBlock { self_type, methods } => methods_params(self_type@, methods@, key),
        _ => None,
    }
}

/// The parameters of the last item of a module that registers `key`.
pub open spec fn params_for(items: Seq<SpannedItem>, key: Seq<char>) -> Option<Vec<Param>>
    decreases items.len(),
{
    if items.len() == 0 {
        None
    } else if item_params(items.last(), key) is Some {
        item_params(items.last(), key)
    } else {
        params_for(items.drop_last(), key)
    }
}

/// A closure to be lowered into a function of its own (its thunk): the
/// thunk takes the closure's environment first, then the closure's
/// parameters, and loads the captured values from the environment.
pub struct PendingClosure {
    /// The id the thunk gets.
    pub func_id: FunctionId,
    /// The captured names, in the order of the environment's fields.
    pub capture_names: Vec<String>,
    pub capture_types: Vec<TypeId>,
    pub params: Vec<(String, TypeId)>,
    pub body: SpannedExpr,
    pub return_type: TypeId,
    pub span: Span,
}

/// Lowers a checked module to SSA bytecode.
pub struct Lowerer {
    pub interner: StringInterner,
    /// The checked module's functions, structs and types; it types the
    /// expressions whose type decides how they are lowered.
    pub typer: Checker,
    pub functions: Vec<Function>,
    pub string_constants: Vec<String>,
    pub next_function_id: u32,
}

/// What lowering a part of a body keeps: the typing tables, the string
/// constants already there (only new ones are appended, each once), the
/// finished blocks and the depth of the scopes.
/// The register an instruction sets, if it sets one.
pub open spec fn inst_dest(i: Instruction) -> Option<Register> {
    match i {
        Instruction::Const(d, _) => Some(d),
        Instruction::ConstUnit(d) => Some(d),
        Instruction::StringPtr(d, _) => Some(d),
        Instruction::StringLen(d, _) => Some(d),
        Instruction::Call(d, _, _) => Some(d),
        Instruction::Copy(d, _) => Some(d),
        Instruction::Add(d, _, _) => Some(d),
        Instruction::Sub(d, _, _) => Some(d),
        Instruction::Mul(d, _, _) => Some(d),
        Instruction::Div(d, _, _) => Some(d),
        Instruction::Mod(d, _, _) => Some(d),
        Instruction::Shl(d, _, _) => Some(d),
        Instruction::Shr(d, _, _) => Some(d),
        Instruction::BitAnd(d, _, _) => Some(d),
        Instruction::BitOr(d, _, _) => Some(d),
        Instruction::BitXor(d, _, _) => Some(d),
        Instruction::Neg(d, _) => Some(d),
        Instruction::BitNot(d, _) => Some(d),
        Instruction::Eq(d, _, _) => Some(d),
        Instruction::Ne(d, _, _) => Some(d),
        Instruction::Lt(d, _, _) => Some(d),
        Instruction::Le(d, _, _) => Some(d),
        Instruction::Gt(d, _, _) => Some(d),
        Instruction::Ge(d, _, _) => Some(d),
        Instruction::Not(d, _) => Some(d),
        Instruction::Cast(d, _, _) => Some(d),
        Instruction::Alloc(d, _) => Some(d),
        Instruction::Load(d, _, _) => Some(d),
        Instruction::IndexLoad(d, _, _, _) => Some(d),
        _ => None,
    }
}

/// The value lowering produced is in `r`, the register allocated last,
/// which the last instruction of the current block sets.
pub open spec fn defined_last(c: FunctionLowerCtx, r: Register) -> bool {
    &&& c.current_instructions@.len() > 0
    &&& inst_dest(c.current_instructions@.last()) == Some(r)
    &&& c.next_register == next_id(r.0)
}

/// The value lowering produced is in `r`: either `r` is set by the last
/// instruction, allocated last, or `r` is a new object (of a struct) that
/// the last instruction retains.
pub open spec fn value_last(c: FunctionLowerCtx, r: Register) -> bool {
    defined_last(c, r) || (c.current_instructions@.len() > 0 && c.current_instructions@.last()
        == Instruction::Retain(r))
}

/// The last instruction of the current block stores a value into a field
/// of the object in `r`.
pub open spec fn stores_into(c: FunctionLowerCtx, r: Register) -> bool {
    &&& c.current_instructions@.len() > 0
    &&& c.current_instructions@.last() matches Instruction::Store(d, _, _) && d == r
}

/// Right after the instructions of the current block of `c0` comes the one
/// that allocates the object in `r`: in the current block of `c1` when no
/// block was finished in between, else in the first block finished after
/// `c0`.
pub open spec fn allocated_after(c0: FunctionLowerCtx, c1: FunctionLowerCtx, r: Register) -> bool {
    let k = c0.current_instructions@.len() as int;
    if c1.blocks@.len() == c0.blocks@.len() {
        k < c1.current_instructions@.len() && (c1.current_instructions@[k] matches Instruction::Alloc(d, _) && d
            == r)
    } else {
        let b = c1.blocks@[c0.blocks@.len() as int];
        k < b.instructions@.len() && (b.instructions@[k] matches Instruction::Alloc(d, _) && d == r)
    }
}

/// The last instruction of the current block calls a builtin (string
/// concatenation) on two values.
pub open spec fn joins_two(c: FunctionLowerCtx) -> bool {
    &&& c.current_instructions@.len() > 0
    &&& c.current_instructions@.last() matches Instruction::Call(_, crate::ir::FunctionRef::Builtin(_), a) && a@.len() == 2
}

/// The last instruction of the current block converts one value to a
/// string by a builtin, into `r`, the register allocated last.
pub open spec fn converted_last(c: FunctionLowerCtx, r: Register) -> bool {
    &&& defined_last(c, r)
    &&& c.current_instructions@.last() matches Instruction::Call(_, crate::ir::FunctionRef::Builtin(_), a) && a@.len() == 1
}

/// The last instruction of a finished block sets `r`.
pub open spec fn block_sets(b: crate::ir::BasicBlock, r: Register) -> bool {
    &&& b.instructions@.len() > 0
    &&& inst_dest(b.instructions@.last()) == Some(r)
}

/// Lowering from `c0` to `c1` went on in a fresh, empty block, which the
/// block finished last jumps to after setting `r` (the value of the branch
/// taken, copied into one register by every branch).
pub open spec fn joins_into(c0: FunctionLowerCtx, c1: FunctionLowerCtx, r: Register) -> bool {
    &&& c1.current_instructions@.len() == 0
    &&& c1.blocks@.len() > c0.blocks@.len()
    &&& c1.blocks@.last().terminator == Terminator::Jump(c1.current_block_id)
    &&& block_sets(c1.blocks@.last(), r)
}

/// The value lowering produced is the unit value, set into `r` by the last
/// instruction of the current block; `r` is the register allocated last.
pub open spec fn unit_value(c: FunctionLowerCtx, r: Register) -> bool {
    &&& c.current_instructions@.len() > 0
    &&& c.current_instructions@.last() == Instruction::ConstUnit(r)
    &&& c.next_register == next_id(r.0)
}

/// The instructions of the current block of `c0` are the first ones of
/// the current block of `c1`.
pub open spec fn current_kept(c0: FunctionLowerCtx, c1: FunctionLowerCtx) -> bool {
    &&& c0.current_instructions@.len() <= c1.current_instructions@.len()
    &&& forall|i: int|
        0 <= i < c0.current_instructions@.len() ==> #[trigger] c1.current_instructions@[i]
            == c0.current_instructions@[i]
}

/// The instructions of the current block of `c0` are the first ones of
/// the first block finished after it.
pub open spec fn current_moved(c0: FunctionLowerCtx, c1: FunctionLowerCtx) -> bool {
    let b = c1.blocks@[c0.blocks@.len() as int];
    &&& c0.current_instructions@.len() <= b.instructions@.len()
    &&& forall|i: int|
        0 <= i < c0.current_instructions@.len() ==> #[trigger] b.instructions@[i] == c0.current_instructions@[i]
}

pub open spec fn lower_frame(
    l0: Lowerer,
    l1: Lowerer,
    c0: FunctionLowerCtx,
    c1: FunctionLowerCtx,
) -> bool {
    &&& l1.wf()
    &&& c1.wf()
    &&& ctx_of(l1.typer) == ctx_of(l0.typer)
    &&& l0.interner.strings().len() <= l1.interner.strings().len()
    &&& forall|i: int|
        0 <= i < l0.interner.strings().len() ==> #[trigger] l1.interner.strings()[i] == l0.interner.strings()[i]
    &&& l1.functions == l0.functions
    &&& l1.next_function_id == l0.next_function_id
    &&& l0.string_constants@.len() <= l1.string_constants@.len()
    &&& forall|i: int|
        0 <= i < l0.string_constants@.len() ==> #[trigger] l1.string_constants@[i]
            == l0.string_constants@[i]
    &&& c0.blocks@.len() <= c1.blocks@.len()
    &&& forall|i: int| 0 <= i < c0.blocks@.len() ==> #[trigger] c1.blocks@[i] == c0.blocks@[i]
    &&& c1.blocks@.len() == c0.blocks@.len() ==> current_kept(c0, c1)
    &&& c1.blocks@.len() > c0.blocks@.len() ==> current_moved(c0, c1)
    &&& c1.locals.depth() == c0.locals.depth()
    &&& c1.local_types.depth() == c0.local_types.depth()
    &&& c0.register_types@.len() <= c1.register_types@.len()
    &&& regs_counted(c0) && c1.register_types@.len() <= u32::MAX ==> regs_counted(c1)
}

/// Each register allocated so far has its type recorded: the types are as
/// many as the registers.
pub open spec fn regs_counted(c: FunctionLowerCtx) -> bool {
    c.register_types@.len() == c.next_register as nat
}

impl Lowerer {
    pub open spec fn wf(&self) -> bool {
        &&& self.typer.well_formed()
        &&& distinct_strings(self.string_constants@)
    }

    pub fn new(checked: CheckedModule) -> (l: Self)
        ensures
            l.wf(),
            l.functions@.len() == 0,
            l.string_constants@.len() == 0,
            l.next_function_id == 0,
            l.typer.functions == checked.functions,
            l.typer.structs == checked.structs,
            l.typer.enums == checked.enums,
            l.typer.type_aliases == checked.type_aliases,
    {
        let typer = Checker {
            diagnostics: DiagnosticBag::new(),
            types: checked.types,
            functions: checked.functions,
            structs: checked.structs,
            enums: checked.enums,
            type_aliases: checked.type_aliases,
            found_main: true,
            require_main: false,
            current_return_type: None,
            self_type: None,
            current_fn_name: String::new(),
            item_def_spans: checked.item_def_spans,
            symbol_table: SymbolTable::new(),
        };
        Lowerer {
            interner: StringInterner::new(),
            typer,
            functions: Vec::new(),
            string_constants: Vec::new(),
            next_function_id: 0,
        }
    }

    /// The index of a string constant, adding it when it is new.
    pub fn intern_string_constant(&mut self, s: &String) -> (idx: u32)
        requires
            old(self).wf(),
        ensures
            final(self).wf(),
            final(self).typer == old(self).typer,
            final(self).interner == old(self).interner,
            final(self).functions == old(self).functions,
            final(self).next_function_id == old(self).next_function_id,
            old(self).string_constants@.len() <= final(self).string_constants@.len() <= old(self).string_constants@.len() + 1,
            forall|i: int|
                0 <= i < old(self).string_constants@.len() ==> #[trigger] final(self).string_constants@[i] == old(self).string_constants@[i],
            (exists|i: int|
                0 <= i < old(self).string_constants@.len() && old(self).string_constants@[i]@ == s@)
                ==> final(self).string_constants@.len() == old(self).string_constants@.len(),
            final(self).string_constants@.len() <= u32::MAX ==> idx < final(self).string_constants@.len()
                && final(self).string_constants@[idx as int]@ == s@,
    {
        let mut i: usize = 0;
        while i < self.string_constants.len()
            invariant
                i <= self.string_constants@.len(),
                self.wf(),
                *self == *old(self),
                forall|j: int| 0 <= j < i ==> self.string_constants@[j]@ != s@,
            decreases self.string_constants@.len() - i,
        {
            if self.string_constants[i] == *s {
                return i as u32;
            }
            i = i + 1;
        }
        let idx = self.string_constants.len() as u32;
        self.string_constants.push(s.clone());
        idx
    }

    /// The parameters of the function registered under `key`: a top-level
    /// function, or a method of an impl block under its mangled name.  The
    /// last definition wins.
    pub fn find_params<'a>(module: &'a Module, key: &String) -> (r: Option<&'a Vec<Param>>)
        ensures
            match r {
                Some(p) => params_for(module.items@, key@) == Some(*p),
                None => params_for(module.items@, key@) is None,
            },
    {
        let mut found: Option<&Vec<Param>> = None;
        let mut i: usize = 0;
        while i < module.items.len()
            invariant
                i <= module.items@.len(),
                match found {
                    Some(p) => params_for(module.items@.take(i as int), key@) == Some(*p),
                    None => params_for(module.items@.take(i as int), key@) is None,
                },
            decreases module.items@.len() - i,
        {
            proof {
                assert(module.items@.take(i + 1).drop_last() =~= module.items@.take(i as int));
            }
            match &module.items[i].node {
                Item::FnDef { name, params, .. } => {
                    if *name == *key {
                        found = Some(params);
                    }
                },
                Item::ImplBlock { self_type, methods } => {
                    let ghost before = found;
                    let mut j: usize = 0;
                    while j < methods.len()
                        invariant
                            j <= methods@.len(),
                            match methods_params(self_type@, methods@.take(j as int), key@) {
                                Some(p) => found matches Some(f) && *f == p,
                                None => found == before,
                            },
                        decreases methods@.len() - j,
                    {
                        proof {
                            assert(methods@.take(j + 1).drop_last() =~= methods@.take(j as int));
                        }
                        if let Item::FnDef { name, params, .. } = &methods[j].node {
                            let m = mangle(self_type, name);
                            if m == *key {
                                found = Some(params);
                            }
                        }
                        j = j + 1;
                    }
                    proof {
                        assert(methods@.take(j as int) =~= methods@);
                    }
                },
                _ => {},
            }
            i = i + 1;
        }
        proof {
            assert(module.items@.take(i as int) =~= module.items@);
        }
        found
    }

    fn take_id(&mut self) -> (id: FunctionId)
        ensures
            id == FunctionId(old(self).next_function_id),
            final(self).next_function_id == next_id(old(self).next_function_id),
            final(self).interner == old(self).interner,
            final(self).typer == old(self).typer,
            final(self).functions == old(self).functions,
            final(self).string_constants == old(self).string_constants,
    {
        let id = FunctionId(self.next_function_id);
        self.next_function_id = self.next_function_id.wrapping_add(1);
        id
    }

    /// The declaration of an extern function: its signature and no body.
    pub fn lower_extern_function(&mut self, name: &String) -> (f: Function)
        requires
            old(self).wf(),
        ensures
            final(self).wf(),
            final(self).typer == old(self).typer,
            final(self).functions == old(self).functions,
            final(self).string_constants == old(self).string_constants,
            final(self).next_function_id == next_id(old(self).next_function_id),
            f.id == FunctionId(old(self).next_function_id),
            f.is_extern,
            f.blocks@.len() == 0,
            f.register_count == 0,
            f.register_types@.len() == 0,
            f.extern_symbol matches Some(s) && s@ == name@,
            strings_kept(old(self).interner.strings(), final(self).interner.strings()),
            old(self).interner.strings().len() + 1 < u32::MAX ==> named_by(final(self).interner.strings(), f, name@),
    {
        let id = self.take_id();
        let ghost s0 = self.interner.strings();
        let name_sym = self.interner.intern(name.as_str());
        let ghost s1 = self.interner.strings();
        let mut params: Vec<(Symbol, TypeId)> = Vec::new();
        let mut return_type = TypeId(0);
        match self.typer.functions.get_by_key(name) {
            Some(sig) => {
                let mut i: usize = 0;
                while i < sig.params.len()
                    invariant
                        i <= sig.params@.len(),
                        strings_kept(s1, self.interner.strings()),
                        self.typer == old(self).typer,
                        self.functions == old(self).functions,
                        self.string_constants == old(self).string_constants,
                        self.next_function_id == next_id(old(self).next_function_id),
                    decreases sig.params@.len() - i,
                {
                    let sym = self.interner.intern(sig.params[i].0.as_str());
                    params.push((sym, sig.params[i].1));
                    i = i + 1;
                }
                return_type = sig.return_type;
            },
            None => {},
        }
        Function {
            id,
            name: name_sym,
            params,
            return_type,
            blocks: Vec::new(),
            register_count: 0,
            register_types: Vec::new(),
            is_extern: true,
            extern_symbol: Some(name.clone()),
            span: Span::dummy(),
        }
    }

    /// Lower the body of the function registered under `key`.  Parameter `i`
    /// lives in register `i`; parameters of a struct or enum type are
    /// released when the function returns, and the last block returns the
    /// body's value.
    pub fn lower_function(
        &mut self,
        module: &Module,
        key: &String,
        params: &Vec<Param>,
        body: &Spanned<Block>,
    ) -> (f: Function)
        requires
            old(self).wf(),
        ensures
            final(self).wf(),
            ctx_of(final(self).typer) == ctx_of(old(self).typer),
            final(self).functions == old(self).functions,
            final(self).next_function_id == next_id(old(self).next_function_id),
            old(self).string_constants@.len() <= final(self).string_constants@.len(),
            forall|i: int|
                0 <= i < old(self).string_constants@.len() ==> #[trigger] final(self).string_constants@[i] == old(self).string_constants@[i],
            f.id == FunctionId(old(self).next_function_id),
            !f.is_extern,
            f.extern_symbol is None,
            f.blocks@.len() > 0,
            f.blocks@.last().terminator is Return,
            strings_kept(old(self).interner.strings(), final(self).interner.strings()),
            old(self).interner.strings().len() + 1 < u32::MAX ==> named_by(final(self).interner.strings(), f, key@),
            body.node.tail_expr is Some ==> returns_tail(
                f,
                *body.node.tail_expr.unwrap(),
                defer::no_defer_block(body.node),
            ),
            stmts_in(body.node, f.blocks@),
            tail_string(body.node) is Some && final(self).string_constants@.len() <= u32::MAX ==> has_string(
                final(self).string_constants@,
                tail_string(body.node).unwrap(),
            ),
            releases_object_params(f, final(self).typer.types.kinds()),
            (match old(self).typer.functions.lookup(key@) {
                Some(sig) => sig.params@.len() == params@.len(),
                None => params@.len() == 0,
            }) && f.register_types@.len() <= u32::MAX ==> f.register_types@.len() == f.register_count as nat,
            match old(self).typer.functions.lookup(key@) {
                Some(sig) => f.params@.len() == sig.params@.len() && f.return_type == sig.return_type
                    && forall|i: int| 0 <= i < sig.params@.len() ==> (#[trigger] f.params@[i]).1 == sig.params@[i].1,
                None => f.params@.len() == 0 && f.return_type == TypeId(0),
            },
            forall|i: int|
                0 <= i < f.blocks@.len() ==> (#[trigger] f.blocks@[i]).spans@.len()
                    == f.blocks@[i].instructions@.len(),
    {
        let id = self.take_id();
        let ghost s0 = self.interner.strings();
        let name_sym = self.interner.intern(key.as_str());
        let ghost s1 = self.interner.strings();
        let mut ir_params: Vec<(Symbol, TypeId)> = Vec::new();
        let mut sig_types: Vec<(String, TypeId)> = Vec::new();
        let mut return_type = TypeId(0);
        match self.typer.functions.get_by_key(key) {
            Some(sig) => {
                let mut i: usize = 0;
                while i < sig.params.len()
                    invariant
                        i <= sig.params@.len(),
                        ir_params@.len() == i,
                        sig_types@.len() == i,
                        forall|j: int| 0 <= j < i ==> (#[trigger] ir_params@[j]).1 == sig_types@[j].1,
                        forall|j: int| 0 <= j < i ==> (#[trigger] ir_params@[j]).1 == sig.params@[j].1,
                        strings_kept(s1, self.interner.strings()),
                        self.typer == old(self).typer,
                        self.functions == old(self).functions,
                        self.string_constants == old(self).string_constants,
                        self.next_function_id == next_id(old(self).next_function_id),
                    decreases sig.params@.len() - i,
                {
                    let sym = self.interner.intern(sig.params[i].0.as_str());
                    ir_params.push((sym, sig.params[i].1));
                    sig_types.push((sig.params[i].0.clone(), sig.params[i].1));
                    i = i + 1;
                }
                return_type = sig.return_type;
            },
            None => {},
        }
        let mut locals: ScopedLocals<Register> = ScopedLocals::new();
        let mut next_register: u32 = 0;
        let mut i: usize = 0;
        while i < params.len()
            invariant
                i <= params@.len(),
                i <= u32::MAX ==> next_register == i,
            decreases params@.len() - i,
        {
            locals.insert(params[i].name.clone(), Register(next_register));
            next_register = next_register.wrapping_add(1);
            i = i + 1;
        }
        let mut local_types: ScopedLocals<LocalInfo> = ScopedLocals::new();
        let mut register_types: Vec<TypeId> = Vec::new();
        let mut i: usize = 0;
        while i < sig_types.len()
            invariant
                i <= sig_types@.len(),
                register_types@.len() == i,
            decreases sig_types@.len() - i,
        {
            local_types.insert(
                sig_types[i].0.clone(),
                LocalInfo { ty: sig_types[i].1, is_mut: false, def_span: Span::dummy() },
            );
            register_types.push(sig_types[i].1);
            i = i + 1;
        }
        let mut ctx = FunctionLowerCtx {
            blocks: Vec::new(),
            current_block_id: BlockId(0),
            current_instructions: Vec::new(),
            current_spans: Vec::new(),
            current_span: body.span,
            next_block_id: 1,
            next_register,
            locals,
            local_types,
            register_types,
            return_type,
            loop_stack: Vec::new(),
        };
        let ghost l0 = *self;
        let ghost c0 = ctx;
        let result = self.lower_block_expr(&mut ctx, module, &body.node, 64);
        let ghost l1 = *self;
        let ghost c1 = ctx;
        let ghost hv = if body.node.tail_expr is Some {
            choose|h: (Lowerer, FunctionLowerCtx, FunctionLowerCtx)| #[trigger] lowered_into(
                *body.node.tail_expr.unwrap(),
                result,
                h,
                c1,
            )
        } else {
            arbitrary()
        };
        self.lower_block_defers(&mut ctx, module, &body.node, 64);
        proof {
            lemma_lower_frame_trans(l0, l1, *self, c0, c1, ctx);
        }
        let ghost c2 = ctx;
        if self.typer.types.is_object(return_type) {
            let mut k: usize = 0;
            while k < sig_types.len()
                invariant
                    k <= sig_types@.len(),
                    ctx.wf(),
                    ctx.blocks == c2.blocks,
                    ctx.register_types == c2.register_types,
                    ctx.next_register == c2.next_register,
                    current_kept(c2, ctx),
                decreases sig_types@.len() - k,
            {
                if k < u32::MAX as usize && Register(k as u32) == result {
                    ctx.emit_retain_for_type(&self.typer.types, result, return_type);
                    break;
                }
                k = k + 1;
            }
        }
        let mut k: usize = 0;
        while k < sig_types.len() && k < u32::MAX as usize
            invariant
                k <= sig_types@.len(),
                ctx.wf(),
                ctx.blocks == c2.blocks,
                ctx.register_types == c2.register_types,
                ctx.next_register == c2.next_register,
                current_kept(c2, ctx),
                ir_params@.len() == sig_types@.len(),
                forall|j: int| 0 <= j < ir_params@.len() ==> (#[trigger] ir_params@[j]).1 == sig_types@[j].1,
                forall|j: int|
                    0 <= j < k && kind_is_object(self.typer.types.kind((#[trigger] sig_types@[j]).1))
                        ==> ctx.current_instructions@.contains(
                        Instruction::Release(Register(j as u32), Some(sig_types@[j].1)),
                    ),
            decreases sig_types@.len() - k,
        {
            let ghost before = ctx.current_instructions@;
            ctx.emit_release_for_type(&self.typer.types, Register(k as u32), sig_types[k].1);
            proof {
                assert forall|j: int|
                    0 <= j < k + 1 && kind_is_object(self.typer.types.kind((#[trigger] sig_types@[j]).1))
                        implies ctx.current_instructions@.contains(
                        Instruction::Release(Register(j as u32), Some(sig_types@[j].1)),
                    ) by {
                    let want = Instruction::Release(Register(j as u32), Some(sig_types@[j].1));
                    if j < k {
                        let m = choose|m: int| 0 <= m < before.len() && before[m] == want;
                        assert(ctx.current_instructions@[m] == want);
                    } else {
                        assert(ctx.current_instructions@[before.len() as int] == want);
                    }
                }
            }
            k = k + 1;
        }
        let ghost cb = ctx;
        ctx.finish_block(Terminator::Return(result));
        proof {
            assert(flows(c1, c2));
            assert(flows(c2, cb));
            lemma_flows_trans(c1, c2, cb);
            assert forall|j: int|
                0 <= j < body.node.stmts@.len() && (#[trigger] stmt_expr(body.node.stmts@[j])) is Some implies exists|
                h: (Lowerer, FunctionLowerCtx, FunctionLowerCtx, Register),
            |
                #[trigger] expr_lowered(stmt_expr(body.node.stmts@[j]).unwrap(), h) && ends_in(
                    h.2,
                    ctx.blocks@,
                ) by {
                let sj = body.node.stmts@[j];
                assert(stmt_lowered(sj, c1));
                lemma_stmt_flows(sj, c1, cb);
                let h = choose|h: (Lowerer, FunctionLowerCtx, FunctionLowerCtx, Register)|
                    #[trigger] expr_lowered(stmt_expr(sj).unwrap(), h) && flows(h.2, cb);
                lemma_ends_in(h.2, cb, ctx.blocks@);
            }
            assert(strings_kept(s1, self.interner.strings()));
            if tail_string(body.node) is Some && self.string_constants@.len() <= u32::MAX {
                let text = tail_string(body.node).unwrap();
                assert(l1.string_constants@.len() <= self.string_constants@.len());
                assert(has_string(l1.string_constants@, text));
                let q = choose|q: int| 0 <= q < l1.string_constants@.len() && #[trigger] l1.string_constants@[q]@ == text;
                assert(self.string_constants@[q] == l1.string_constants@[q]);
            }
            if body.node.tail_expr is Some {
                let t = *body.node.tail_expr.unwrap();
                assert(lowered_into(t, result, hv, c1));
                assert(cb.blocks@.len() <= ctx.blocks@.len());
                assert forall|q: int| 0 <= q < hv.2.blocks@.len() implies #[trigger] ctx.blocks@[q] == hv.2.blocks@[q] by {
                    assert(c1.blocks@[q] == hv.2.blocks@[q]);
                    assert(c2.blocks@[q] == c1.blocks@[q]);
                    assert(cb.blocks == c2.blocks);
                    assert(ctx.blocks@[q] == cb.blocks@[q]);
                }
                let w = (result, hv.0, hv.1, hv.2);
                assert(lowered_value(w.1, t, w.2, w.3, w.0));
                if defer::no_defer_block(body.node) {
                    assert(c2 == c1);
                    assert(hv.2.blocks == cb.blocks);
                    assert forall|q: int| 0 <= q < hv.2.current_instructions@.len() implies #[trigger] ctx.blocks@.last().instructions@[q]
                        == hv.2.current_instructions@[q] by {
                        assert(c1.current_instructions@[q] == hv.2.current_instructions@[q]);
                        assert(cb.current_instructions@[q] == c1.current_instructions@[q]);
                    }
                }
            }
        }
        Function {
            id,
            name: name_sym,
            params: ir_params,
            return_type,
            blocks: ctx.blocks,
            register_count: ctx.next_register,
            register_types: ctx.register_types,
            is_extern: false,
            extern_symbol: None,
            span: body.span,
        }
    }

    /// Lower the body of the instance of the generic function `g` that the
    /// checker registered under `key` (its mangled name): the parameters
    /// have the instance's types, and the function is what lowering the
    /// body under that name gives.
    pub fn lower_function_with_subst(
        &mut self,
        module: &Module,
        key: &String,
        g: &crate::checker::generics::GenericFunctionDef,
    ) -> (f: Function)
        requires
            old(self).wf(),
        ensures
            final(self).wf(),
            ctx_of(final(self).typer) == ctx_of(old(self).typer),
            final(self).functions == old(self).functions,
            final(self).next_function_id == next_id(old(self).next_function_id),
            f.id == FunctionId(old(self).next_function_id),
            f.extern_symbol is None,
            f.blocks@.len() > 0,
            f.blocks@.last().terminator is Return,
            lowered_for(f, old(self).typer.functions, key@),
            body_lowered(f, g.ast_body.node),
            (match old(self).typer.functions.lookup(key@) {
                Some(sig) => sig.params@.len() == g.ast_params@.len(),
                None => g.ast_params@.len() == 0,
            }) && f.register_types@.len() <= u32::MAX ==> f.register_types@.len() == f.register_count as nat,
            old(self).interner.strings().len() + 1 < u32::MAX ==> named_by(final(self).interner.strings(), f, key@),
            releases_object_params(f, final(self).typer.types.kinds()),
    {
        self.lower_function(module, key, &g.ast_params, &g.ast_body)
    }

    /// Lower a closure into its thunk `__closure_<id>`: the environment (an
    /// `i64`) is register 0 and the closure's parameters follow; each
    /// capture is loaded from the environment (and retained when it is
    /// reference counted), the body is lowered, a result that is one of the
    /// parameters or captures is retained, the parameters and captures are
    /// released, and the last block returns the result.
    pub fn lower_closure_thunk(&mut self, module: &Module, closure: &PendingClosure) -> (f: Function)
        requires
            old(self).wf(),
        ensures
            final(self).wf(),
            ctx_of(final(self).typer) == ctx_of(old(self).typer),
            final(self).functions == old(self).functions,
            final(self).next_function_id == old(self).next_function_id,
            old(self).string_constants@.len() <= final(self).string_constants@.len(),
            forall|i: int|
                0 <= i < old(self).string_constants@.len() ==> #[trigger] final(self).string_constants@[i]
                    == old(self).string_constants@[i],
            f.id == closure.func_id,
            !f.is_extern,
            f.extern_symbol is None,
            f.params@.len() == closure.params@.len() + 1,
            f.params@[0].1 == TypeId(4),
            forall|i: int| 0 <= i < closure.params@.len() ==> #[trigger] f.params@[i + 1].1 == closure.params@[i].1,
            f.return_type == closure.return_type,
            f.blocks@.len() > 0,
            f.blocks@.last().terminator is Return,
            returns_tail(f, closure.body, true),
            final(self).interner.strings().len() + 1 < u32::MAX ==> f.name.0 < final(self).interner.strings().len()
                && final(self).interner.strings()[f.name.0 as int] == "__closure_"@ + decimal(
                closure.func_id.0 as nat,
            ),
            forall|i: int|
                0 <= i < f.blocks@.len() ==> (#[trigger] f.blocks@[i]).spans@.len()
                    == f.blocks@[i].instructions@.len(),
    {
        let env_sym = self.interner.intern("__env");
        let mut ir_params: Vec<(Symbol, TypeId)> = Vec::new();
        ir_params.push((env_sym, TypeId(4)));
        let mut locals: ScopedLocals<Register> = ScopedLocals::new();
        let mut local_types: ScopedLocals<LocalInfo> = ScopedLocals::new();
        let mut register_types: Vec<TypeId> = Vec::new();
        locals.insert(String::from_str("__env"), Register(0));
        local_types.insert(
            String::from_str("__env"),
            LocalInfo { ty: TypeId(4), is_mut: false, def_span: closure.span },
        );
        register_types.push(TypeId(4));
        let mut next_register: u32 = 1;
        let mut i: usize = 0;
        while i < closure.params.len()
            invariant
                i <= closure.params@.len(),
                ir_params@.len() == i + 1,
                ir_params@[0].1 == TypeId(4),
                forall|j: int| 0 <= j < i ==> #[trigger] ir_params@[j + 1].1 == closure.params@[j].1,
                self.typer == old(self).typer,
                self.functions == old(self).functions,
                self.string_constants == old(self).string_constants,
                self.next_function_id == old(self).next_function_id,
            decreases closure.params@.len() - i,
        {
            let sym = self.interner.intern(closure.params[i].0.as_str());
            ir_params.push((sym, closure.params[i].1));
            locals.insert(closure.params[i].0.clone(), Register(next_register));
            local_types.insert(
                closure.params[i].0.clone(),
                LocalInfo { ty: closure.params[i].1, is_mut: false, def_span: closure.span },
            );
            register_types.push(closure.params[i].1);
            next_register = next_register.wrapping_add(1);
            i = i + 1;
        }
        let mut ctx = FunctionLowerCtx {
            blocks: Vec::new(),
            current_block_id: BlockId(0),
            current_instructions: Vec::new(),
            current_spans: Vec::new(),
            current_span: closure.span,
            next_block_id: 1,
            next_register,
            locals,
            local_types,
            register_types,
            return_type: closure.return_type,
            loop_stack: Vec::new(),
        };
        let ncap = if closure.capture_names.len() < closure.capture_types.len() {
            closure.capture_names.len()
        } else {
            closure.capture_types.len()
        };
        let mut k: usize = 0;
        while k < ncap
            invariant
                k <= ncap,
                ncap <= closure.capture_names@.len(),
                ncap <= closure.capture_types@.len(),
                ctx.wf(),
                ctx.blocks@.len() == 0,
                self.wf(),
                self.typer == old(self).typer,
                self.functions == old(self).functions,
                self.string_constants == old(self).string_constants,
                self.next_function_id == old(self).next_function_id,
            decreases ncap - k,
        {
            let ct = closure.capture_types[k];
            let cap_reg = ctx.alloc_typed_register(ct);
            if k < u32::MAX as usize {
                ctx.push_inst(Instruction::Load(cap_reg, Register(0), k as u32));
            }
            ctx.emit_retain_for_type(&self.typer.types, cap_reg, ct);
            ctx.locals.insert(closure.capture_names[k].clone(), cap_reg);
            ctx.local_types.insert(
                closure.capture_names[k].clone(),
                LocalInfo { ty: ct, is_mut: false, def_span: closure.span },
            );
            k = k + 1;
        }
        let ghost l0 = *self;
        let ghost c0 = ctx;
        let result = self.lower_expr(&mut ctx, module, &closure.body, 64);
        let ghost c1 = ctx;
        if self.typer.types.is_object(closure.return_type) {
            let mut needs_retain = false;
            let mut q: usize = 0;
            while q < closure.params.len()
                invariant
                    q <= closure.params@.len(),
                    ctx.wf(),
                ctx.blocks == c1.blocks,
                    current_kept(c1, ctx),
                    ctx.blocks == c1.blocks,
                    current_kept(c1, ctx),
                decreases closure.params@.len() - q,
            {
                if let Some(r) = ctx.locals.get(closure.params[q].0.as_str()) {
                    if *r == result {
                        needs_retain = true;
                        break;
                    }
                }
                q = q + 1;
            }
            if !needs_retain {
                let mut q: usize = 0;
                while q < closure.capture_names.len()
                    invariant
                        q <= closure.capture_names@.len(),
                        ctx.wf(),
                ctx.blocks == c1.blocks,
                    current_kept(c1, ctx),
                        ctx.blocks == c1.blocks,
                    current_kept(c1, ctx),
                    ctx.blocks == c1.blocks,
                    current_kept(c1, ctx),
                    decreases closure.capture_names@.len() - q,
                {
                    if let Some(r) = ctx.locals.get(closure.capture_names[q].as_str()) {
                        if *r == result {
                            needs_retain = true;
                            break;
                        }
                    }
                    q = q + 1;
                }
            }
            if needs_retain {
                ctx.emit_retain_for_type(&self.typer.types, result, closure.return_type);
            }
        }
        let mut q: usize = 0;
        while q < closure.params.len()
            invariant
                q <= closure.params@.len(),
                ctx.wf(),
                ctx.blocks == c1.blocks,
                    current_kept(c1, ctx),
            decreases closure.params@.len() - q,
        {
            let found = match ctx.locals.get(closure.params[q].0.as_str()) {
                Some(r) => Some(*r),
                None => None,
            };
            if let Some(r) = found {
                ctx.emit_release_for_type(&self.typer.types, r, closure.params[q].1);
            }
            q = q + 1;
        }
        let mut q: usize = 0;
        while q < ncap
            invariant
                q <= ncap,
                ncap <= closure.capture_names@.len(),
                ncap <= closure.capture_types@.len(),
                ctx.wf(),
                ctx.blocks == c1.blocks,
                    current_kept(c1, ctx),
            decreases ncap - q,
        {
            let found = match ctx.locals.get(closure.capture_names[q].as_str()) {
                Some(r) => Some(*r),
                None => None,
            };
            if let Some(r) = found {
                ctx.emit_release_for_type(&self.typer.types, r, closure.capture_types[q]);
            }
            q = q + 1;
        }
        let ghost cb = ctx;
        ctx.finish_block(Terminator::Return(result));
        proof {
            assert(cb.blocks == c1.blocks);
            let w = (result, l0, c0, c1);
            assert(lowered_value(w.1, closure.body, w.2, w.3, w.0));
            assert forall|q: int| 0 <= q < c1.blocks@.len() implies #[trigger] ctx.blocks@[q] == c1.blocks@[q] by {
                assert(ctx.blocks@[q] == cb.blocks@[q]);
            }
            assert forall|q: int| 0 <= q < c1.current_instructions@.len() implies #[trigger] ctx.blocks@.last().instructions@[q]
                == c1.current_instructions@[q] by {
                assert(cb.current_instructions@[q] == c1.current_instructions@[q]);
            }
        }
        let mut thunk_name = String::from_str("__closure_");
        let id_text = to_decimal(closure.func_id.0 as usize);
        thunk_name.append(id_text.as_str());
        let name_sym = self.interner.intern(thunk_name.as_str());
        proof {
            reveal_strlit("__closure_");
        }
        Function {
            id: closure.func_id,
            name: name_sym,
            params: ir_params,
            return_type: closure.return_type,
            blocks: ctx.blocks,
            register_count: ctx.next_register,
            register_types: ctx.register_types,
            is_extern: false,
            extern_symbol: None,
            span: closure.span,
        }
    }

    /// Lower a module: first one declaration for each extern function, then
    /// each function and each method of an impl block, in order.  `main` is
    /// the entry function.
    pub fn lower(self, module: &Module) -> (p: Program)
        requires
            self.wf(),
            self.functions@.len() == 0,
            self.next_function_id == 0,
        ensures
            distinct_strings(p.string_constants@),
            p.entry_function is Some <==> defines_main(module.items@),
            forall|i: int| 0 <= i < p.functions@.len() && i <= u32::MAX ==> (#[trigger] p.functions@[i]).id == FunctionId(i as u32),
            forall|i: int|
                0 <= i < p.functions@.len() ==> ((#[trigger] p.functions@[i]).is_extern ==> (
                p.functions@[i].blocks@.len() == 0 && p.functions@[i].extern_symbol is Some && p.functions@[i].register_count
                == 0 && p.functions@[i].register_types@.len() == 0)),
            forall|i: int|
                0 <= i < p.functions@.len() ==> (!(#[trigger] p.functions@[i]).is_extern ==> (
                p.functions@[i].blocks@.len() > 0 && p.functions@[i].blocks@.last().terminator is Return
                && p.functions@[i].extern_symbol is None)),
            forall|i: int, b: int|
                0 <= i < p.functions@.len() && 0 <= b < p.functions@[i].blocks@.len() ==> (#[trigger] p.functions@[i].blocks@[b]).spans@.len()
                    == p.functions@[i].blocks@[b].instructions@.len(),
            forall|i: int|
                0 <= i < p.functions@.len() ==> (!(#[trigger] p.functions@[i]).is_extern
                    ==> releases_object_params(p.functions@[i], p.types.kinds())),
            program_functions(p.functions@, self.typer.functions, module.items@),
            fns_named(p.interner.strings(), p.functions@, extern_keys(module.items@), 0),
            fns_named(
                p.interner.strings(),
                p.functions@,
                body_keys(self.typer.functions, module.items@),
                extern_keys(module.items@).len() as int,
            ),
            fns_lowered(
                p.functions@,
                body_blocks(self.typer.functions, module.items@),
                extern_keys(module.items@).len() as int,
            ),
            tail_strings_in(p.string_constants@, body_blocks(self.typer.functions, module.items@)),
            p.functions@.len() <= u32::MAX ==> (p.entry_function matches Some(id) ==> (extern_keys(module.items@).len()
                <= id.0 < p.functions@.len() && body_keys(self.typer.functions, module.items@)[id.0
                - extern_keys(module.items@).len()] == "main"@)),
            p.extern_libs@.len() == 1,
            p.extern_libs@[0]@ == "System"@,
    {
        let mut l = self;
        let ghost t = self.typer.functions;
        let ghost items = module.items@;
        let mut entry_function: Option<FunctionId> = None;
        let mut i: usize = 0;
        while i < module.items.len()
            invariant
                i <= module.items@.len(),
                items == module.items@,
                l.typer.functions == t,
                l.functions@.len() == extern_keys(items.take(i as int)).len(),
                forall|k: int|
                    0 <= k < l.functions@.len() ==> ((#[trigger] l.functions@[k]).extern_symbol matches Some(s) && s@
                        == extern_keys(items.take(i as int))[k]),
                fns_named(l.interner.strings(), l.functions@, extern_keys(items.take(i as int)), 0),
                l.wf(),
                l.functions@.len() <= u32::MAX ==> l.next_function_id as int == l.functions@.len(),
                forall|j: int| 0 <= j < l.functions@.len() && j <= u32::MAX ==> (#[trigger] l.functions@[j]).id == FunctionId(j as u32),
                forall|j: int|
                    0 <= j < l.functions@.len() ==> (#[trigger] l.functions@[j]).is_extern && l.functions@[j].blocks@.len()
                        == 0 && l.functions@[j].extern_symbol is Some && l.functions@[j].register_count == 0 && l.functions@[j].register_types@.len() == 0,
                entry_function is None,
            decreases module.items@.len() - i,
        {
            let ghost ek = extern_keys(items.take(i as int));
            proof {
                assert(items.take(i + 1).drop_last() =~= items.take(i as int));
                assert(items.take(i + 1).last() == items[i as int]);
            }
            if let Item::ExternBlock { items: decls } = &module.items[i].node {
                let ghost names = decls@.map_values(|d: Spanned<ExternFnDecl>| d.node.name@);
                proof {
                    assert((ek + names).take(ek.len() as int) =~= ek);
                }
                let mut j: usize = 0;
                while j < decls.len()
                    invariant
                        j <= decls@.len(),
                        names == decls@.map_values(|d: Spanned<ExternFnDecl>| d.node.name@),
                        l.typer.functions == t,
                        l.functions@.len() == ek.len() + j,
                        forall|k: int|
                            0 <= k < l.functions@.len() ==> ((#[trigger] l.functions@[k]).extern_symbol matches Some(
                                s,
                            ) && s@ == (ek + names)[k]),
                        fns_named(l.interner.strings(), l.functions@, (ek + names).take(ek.len() + j), 0),
                        l.wf(),
                        l.functions@.len() <= u32::MAX ==> l.next_function_id as int == l.functions@.len(),
                        forall|k: int| 0 <= k < l.functions@.len() && k <= u32::MAX ==> (#[trigger] l.functions@[k]).id == FunctionId(k as u32),
                        forall|k: int|
                            0 <= k < l.functions@.len() ==> (#[trigger] l.functions@[k]).is_extern
                                && l.functions@[k].blocks@.len() == 0 && l.functions@[k].extern_symbol is Some && l.functions@[k].register_count == 0 && l.functions@[k].register_types@.len() == 0,
                    decreases decls@.len() - j,
                {
                    let ghost s_b = l.interner.strings();
                    let ghost fs_b = l.functions@;
                    let f = l.lower_extern_function(&decls[j].node.name);
                    l.functions.push(f);
                    proof {
                        assert(names[j as int] == decls@[j as int].node.name@);
                        assert((ek + names)[ek.len() + j] == names[j as int]);
                        let kj = (ek + names).take(ek.len() + j);
                        lemma_named_grow(s_b, l.interner.strings(), fs_b, fs_b, kj, 0);
                        assert(l.functions@.drop_last() =~= fs_b);
                        lemma_named_push(l.interner.strings(), l.functions@, kj, 0, names[j as int]);
                        assert(kj.push(names[j as int]) =~= (ek + names).take(ek.len() + j + 1));
                    }
                    j = j + 1;
                }
                proof {
                    assert(extern_keys(items.take(i + 1)) =~= ek + names);
                    assert((ek + names).take((ek.len() + decls@.len()) as int) =~= ek + names);
                }
            } else {
                proof {
                    assert(extern_keys(items.take(i + 1)) =~= ek);
                }
            }
            i = i + 1;
        }
        let ghost ext = extern_keys(items);
        proof {
            assert(items.take(items.len() as int) =~= items);
        }
        let ghost kinds0 = l.typer.types.kinds();
        let ghost e = ext.len();
        let mut i: usize = 0;
        while i < module.items.len()
            invariant
                i <= module.items@.len(),
                items == module.items@,
                ext == extern_keys(items),
                e == ext.len(),
                l.typer.functions == t,
                l.functions@.len() == e + body_keys(t, items.take(i as int)).len(),
                forall|k: int|
                    0 <= k < e ==> (#[trigger] l.functions@[k]).is_extern && (l.functions@[k].extern_symbol matches Some(
                        s,
                    ) && s@ == ext[k]),
                forall|k: int|
                    0 <= k < body_keys(t, items.take(i as int)).len() ==> lowered_for(
                        #[trigger] l.functions@[e + k],
                        t,
                        body_keys(t, items.take(i as int))[k],
                    ),
                l.functions@.len() <= u32::MAX ==> (entry_function matches Some(id) ==> (e <= id.0
                    < l.functions@.len() && body_keys(t, items.take(i as int))[id.0 - e] == "main"@)),
                fns_named(l.interner.strings(), l.functions@, ext, 0),
                fns_named(l.interner.strings(), l.functions@, body_keys(t, items.take(i as int)), e as int),
                body_blocks(t, items.take(i as int)).len() == body_keys(t, items.take(i as int)).len(),
                fns_lowered(l.functions@, body_blocks(t, items.take(i as int)), e as int),
                tail_strings_in(l.string_constants@, body_blocks(t, items.take(i as int))),
                l.wf(),
                l.functions@.len() <= u32::MAX ==> l.next_function_id as int == l.functions@.len(),
                forall|j: int| 0 <= j < l.functions@.len() && j <= u32::MAX ==> (#[trigger] l.functions@[j]).id == FunctionId(j as u32),
                forall|j: int|
                    0 <= j < l.functions@.len() ==> ((#[trigger] l.functions@[j]).is_extern ==> (
                    l.functions@[j].blocks@.len() == 0 && l.functions@[j].extern_symbol is Some && l.functions@[j].register_count == 0 && l.functions@[j].register_types@.len() == 0)),
                forall|j: int|
                    0 <= j < l.functions@.len() ==> (!(#[trigger] l.functions@[j]).is_extern ==> (
                    l.functions@[j].blocks@.len() > 0 && l.functions@[j].blocks@.last().terminator is Return
                    && l.functions@[j].extern_symbol is None)),
                forall|j: int, b: int|
                    0 <= j < l.functions@.len() && 0 <= b < l.functions@[j].blocks@.len() ==> (#[trigger] l.functions@[j].blocks@[b]).spans@.len()
                        == l.functions@[j].blocks@[b].instructions@.len(),
                forall|j: int|
                    0 <= j < l.functions@.len() ==> (!(#[trigger] l.functions@[j]).is_extern
                        ==> releases_object_params(l.functions@[j], kinds0)),
                l.typer.types.kinds() == kinds0,
                entry_function is Some <==> exists|j: int| 0 <= j < i && is_main_fn(#[trigger] module.items@[j]),
            decreases module.items@.len() - i,
        {
            let ghost bk = body_keys(t, items.take(i as int));
            let ghost bb = body_blocks(t, items.take(i as int));
            let ghost len0 = l.functions@.len();
            proof {
                assert(items.take(i + 1).drop_last() =~= items.take(i as int));
                assert(items.take(i + 1).last() == items[i as int]);
            }
            match &module.items[i].node {
                Item::FnDef { name, params, body, .. } => {
                    let ghost s_b = l.interner.strings();
                    let ghost fs_b = l.functions@;
                    let ghost tb = l.string_constants@;
                    let f = l.lower_function(module, name, params, body);
                    if crate::checker::str_is(name, "main") {
                        entry_function = Some(f.id);
                    }
                    let ghost fg = f;
                    l.functions.push(f);
                    proof {
                        let bk1 = body_keys(t, items.take(i + 1));
                        assert(bk1 =~= bk.push(name@));
                        assert(body_blocks(t, items.take(i + 1)) =~= bb.push(*body));
                        assert(l.functions@[(e + bk.len()) as int] == fg);
                        let sn = l.interner.strings();
                        assert(l.functions@.drop_last() =~= fs_b);
                        lemma_named_grow(s_b, sn, fs_b, l.functions@, ext, 0);
                        lemma_named_grow(s_b, sn, fs_b, fs_b, bk, e as int);
                        lemma_named_push(sn, l.functions@, bk, e as int, name@);
                        lemma_lowered_push(l.functions@, bb, e as int, *body);
                        lemma_strings_grow(tb, l.string_constants@, bb);
                        assert(tail_strings_in(l.string_constants@, bb.push(*body)));
                    }
                },
                Item::ImplBlock { self_type, methods } => {
                    let ghost mk = method_keys(t, self_type@, methods@);
                    let mut j: usize = 0;
                    while j < methods.len()
                        invariant
                            j <= methods@.len(),
                            items == module.items@,
                            l.typer.functions == t,
                            e == ext.len(),
                            bk == body_keys(t, items.take(i as int)),
                            len0 == e + bk.len(),
                            l.functions@.len() == len0 + method_keys(t, self_type@, methods@.take(j as int)).len(),
                            forall|k: int|
                                0 <= k < e ==> (#[trigger] l.functions@[k]).is_extern && (l.functions@[k].extern_symbol matches Some(
                                    s,
                                ) && s@ == ext[k]),
                            forall|k: int|
                                0 <= k < bk.len() + method_keys(t, self_type@, methods@.take(j as int)).len() ==> lowered_for(
                                    #[trigger] l.functions@[e + k],
                                    t,
                                    (bk + method_keys(t, self_type@, methods@.take(j as int)))[k],
                                ),
                            l.functions@.len() <= u32::MAX ==> (entry_function matches Some(id) ==> (e <= id.0
                                < len0 && bk[id.0 - e] == "main"@)),
                            bb == body_blocks(t, items.take(i as int)),
                            bb.len() == bk.len(),
                            method_bodies(t, self_type@, methods@.take(j as int)).len() == method_keys(
                                t,
                                self_type@,
                                methods@.take(j as int),
                            ).len(),
                            fns_named(l.interner.strings(), l.functions@, ext, 0),
                            fns_named(
                                l.interner.strings(),
                                l.functions@,
                                bk + method_keys(t, self_type@, methods@.take(j as int)),
                                e as int,
                            ),
                            fns_lowered(l.functions@, bb + method_bodies(t, self_type@, methods@.take(j as int)), e as int),
                            tail_strings_in(l.string_constants@, bb + method_bodies(t, self_type@, methods@.take(j as int))),
                            l.wf(),
                            l.functions@.len() <= u32::MAX ==> l.next_function_id as int == l.functions@.len(),
                            forall|k: int| 0 <= k < l.functions@.len() && k <= u32::MAX ==> (#[trigger] l.functions@[k]).id == FunctionId(k as u32),
                            forall|k: int|
                                0 <= k < l.functions@.len() ==> ((#[trigger] l.functions@[k]).is_extern ==> (
                                l.functions@[k].blocks@.len() == 0 && l.functions@[k].extern_symbol is Some && l.functions@[k].register_count == 0 && l.functions@[k].register_types@.len() == 0)),
                            forall|k: int|
                                0 <= k < l.functions@.len() ==> (!(#[trigger] l.functions@[k]).is_extern ==> (
                                l.functions@[k].blocks@.len() > 0 && l.functions@[k].blocks@.last().terminator
                                    is Return && l.functions@[k].extern_symbol is None)),
                            forall|k: int, b: int|
                                0 <= k < l.functions@.len() && 0 <= b < l.functions@[k].blocks@.len() ==> (#[trigger] l.functions@[k].blocks@[b]).spans@.len()
                                    == l.functions@[k].blocks@[b].instructions@.len(),
                            forall|k: int|
                                0 <= k < l.functions@.len() ==> (!(#[trigger] l.functions@[k]).is_extern
                                    ==> releases_object_params(l.functions@[k], kinds0)),
                            l.typer.types.kinds() == kinds0,
                        decreases methods@.len() - j,
                    {
                        let ghost mkj = method_keys(t, self_type@, methods@.take(j as int));
                        let ghost mbj = method_bodies(t, self_type@, methods@.take(j as int));
                        proof {
                            assert(methods@.take(j + 1).drop_last() =~= methods@.take(j as int));
                            assert(methods@.take(j + 1).last() == methods@[j as int]);
                        }
                        if let Item::FnDef { name, params, body, .. } = &methods[j].node {
                            let key = mangle(self_type, name);
                            if l.typer.functions.get_by_key(&key).is_some() {
                                let ghost s_b = l.interner.strings();
                                let ghost fs_b = l.functions@;
                                let ghost tb = l.string_constants@;
                                let f = l.lower_function(module, &key, params, body);
                                let ghost fg = f;
                                l.functions.push(f);
                                proof {
                                    let mk1 = method_keys(t, self_type@, methods@.take(j + 1));
                                    assert(mk1 =~= mkj.push(key@));
                                    assert(bk + mk1 =~= (bk + mkj).push(key@));
                                    let mb1 = method_bodies(t, self_type@, methods@.take(j + 1));
                                    assert(mb1 =~= mbj.push(*body));
                                    assert(bb + mb1 =~= (bb + mbj).push(*body));
                                    assert(l.functions@[(e + bk.len() + mkj.len()) as int] == fg);
                                    let sn = l.interner.strings();
                                    assert(l.functions@.drop_last() =~= fs_b);
                                    lemma_named_grow(s_b, sn, fs_b, l.functions@, ext, 0);
                                    lemma_named_grow(s_b, sn, fs_b, fs_b, bk + mkj, e as int);
                                    lemma_named_push(sn, l.functions@, bk + mkj, e as int, key@);
                                    lemma_lowered_push(l.functions@, bb + mbj, e as int, *body);
                                    lemma_strings_grow(tb, l.string_constants@, bb + mbj);
                                    assert(tail_strings_in(l.string_constants@, (bb + mbj).push(*body)));
                                }
                            } else {
                                proof {
                                    assert(method_keys(t, self_type@, methods@.take(j + 1)) =~= mkj);
                                    assert(method_bodies(t, self_type@, methods@.take(j + 1)) =~= mbj);
                                }
                            }
                        } else {
                            proof {
                                assert(method_keys(t, self_type@, methods@.take(j + 1)) =~= mkj);
                                assert(method_bodies(t, self_type@, methods@.take(j + 1)) =~= mbj);
                            }
                        }
                        j = j + 1;
                    }
                    proof {
                        assert(methods@.take(methods@.len() as int) =~= methods@);
                        assert(body_keys(t, items.take(i + 1)) =~= bk + mk);
                        assert(body_blocks(t, items.take(i + 1)) =~= bb + method_bodies(t, self_type@, methods@));
                    }
                },
                _ => {
                    proof {
                        assert(body_keys(t, items.take(i + 1)) =~= bk);
                        assert(body_blocks(t, items.take(i + 1)) =~= bb);
                    }
                },
            }
            proof {
                if is_main_fn(module.items@[i as int]) {
                    assert(exists|j: int| 0 <= j < i + 1 && is_main_fn(#[trigger] module.items@[j]));
                }
                if exists|j: int| 0 <= j < i + 1 && is_main_fn(#[trigger] module.items@[j]) {
                    let j = choose|j: int| 0 <= j < i + 1 && is_main_fn(#[trigger] module.items@[j]);
                    if j < i {
                        assert(exists|j2: int| 0 <= j2 < i && is_main_fn(#[trigger] module.items@[j2]));
                    }
                }
            }
            i = i + 1;
        }
        proof {
            assert(items.take(items.len() as int) =~= items);
        }
        let mut extern_libs: Vec<String> = Vec::new();
        extern_libs.push(String::from_str("System"));
        proof {
            reveal_strlit("System");
        }
        Program {
            functions: l.functions,
            string_constants: l.string_constants,
            entry_function,
            extern_libs,
            interner: l.interner,
            types: l.typer.types,
        }
    }
}

/// Whether the symbol table `strings` names `f` by `key`.
pub open spec fn named_by(strings: Seq<Seq<char>>, f: Function, key: Seq<char>) -> bool {
    f.name.0 < strings.len() && strings[f.name.0 as int] == key
}

/// Whether the strings `a` are the first of `b`.
pub open spec fn strings_kept(a: Seq<Seq<char>>, b: Seq<Seq<char>>) -> bool {
    &&& a.len() <= b.len()
    &&& forall|i: int| 0 <= i < a.len() ==> #[trigger] b[i] == a[i]
}

/// Lowering `e` (from the lowerer `h.0` and the state `h.1`) left its value
/// in `r` at the state `h.2`; from there to `c` no block was finished and
/// the instructions of the current block were only added to.
pub open spec fn lowered_into(
    e: SpannedExpr,
    r: Register,
    h: (Lowerer, FunctionLowerCtx, FunctionLowerCtx),
    c: FunctionLowerCtx,
) -> bool {
    &&& lowered_value(h.0, e, h.1, h.2, r)
    &&& h.2.blocks == c.blocks
    &&& current_kept(h.2, c)
}

/// The register `r` holds the value of `e`, lowered on the way to `c`.
pub open spec fn value_of(e: SpannedExpr, r: Register, c: FunctionLowerCtx) -> bool {
    exists|h: (Lowerer, FunctionLowerCtx, FunctionLowerCtx)| #[trigger] lowered_into(e, r, h, c)
}

/// From `c0` to `c1` the finished blocks of `c0` stayed, and the
/// instructions of its current block stayed first in the current block or
/// moved to the first block finished after `c0`.
pub open spec fn flows(c0: FunctionLowerCtx, c1: FunctionLowerCtx) -> bool {
    &&& c0.blocks@.len() <= c1.blocks@.len()
    &&& forall|i: int| 0 <= i < c0.blocks@.len() ==> #[trigger] c1.blocks@[i] == c0.blocks@[i]
    &&& c1.blocks@.len() == c0.blocks@.len() ==> current_kept(c0, c1)
    &&& c1.blocks@.len() > c0.blocks@.len() ==> current_moved(c0, c1)
}

/// The blocks `bs` hold what was lowered up to `c`: the finished blocks of
/// `c` come first, and the next one begins with the instructions of the
/// current block of `c`.
pub open spec fn ends_in(c: FunctionLowerCtx, bs: Seq<BasicBlock>) -> bool {
    &&& c.blocks@.len() < bs.len()
    &&& forall|i: int| 0 <= i < c.blocks@.len() ==> #[trigger] bs[i] == c.blocks@[i]
    &&& c.current_instructions@.len() <= bs[c.blocks@.len() as int].instructions@.len()
    &&& forall|i: int|
        0 <= i < c.current_instructions@.len() ==> #[trigger] bs[c.blocks@.len() as int].instructions@[i]
            == c.current_instructions@[i]
}

/// The expression a statement evaluates: the value of a `let` or a
/// `const`, or the expression of an expression statement.
pub open spec fn stmt_expr(s: SpannedStmt) -> Option<SpannedExpr> {
    match s.node {
        Stmt::Expr(e) => Some(e),
        Stmt::Let { value, .. } => Some(value),
        Stmt::Const { value, .. } => Some(value),
        Stmt::LetPattern { value, .. } => Some(value),
        Stmt::Defer { .. } => None,
    }
}

/// Lowering `e` by the lowerer `h.0` from the state `h.1` to the state `h.2`
/// left its value in `h.3`, a call's arguments in the call's registers and
/// an operation's operands in the registers its instruction reads.
pub open spec fn expr_lowered(e: SpannedExpr, h: (Lowerer, FunctionLowerCtx, FunctionLowerCtx, Register)) -> bool {
    &&& lowered_value(h.0, e, h.1, h.2, h.3)
    &&& calls::call_args_in(h.0, e, h.1, h.2)
    &&& expr::operands_in(e, h.1, h.2)
}

/// The expression of `s` was lowered (as `expr_lowered` says) on the way
/// to `c`.
pub open spec fn stmt_lowered(s: SpannedStmt, c: FunctionLowerCtx) -> bool {
    stmt_expr(s) is Some ==> exists|h: (Lowerer, FunctionLowerCtx, FunctionLowerCtx, Register)|
        #[trigger] expr_lowered(stmt_expr(s).unwrap(), h) && flows(h.2, c)
}

/// Each statement of `b` was lowered into the blocks `bs`: what lowering
/// its expression gave lies in them.
pub open spec fn stmts_in(b: Block, bs: Seq<BasicBlock>) -> bool {
    forall|j: int|
        0 <= j < b.stmts@.len() && (#[trigger] stmt_expr(b.stmts@[j])) is Some ==> exists|
            h: (Lowerer, FunctionLowerCtx, FunctionLowerCtx, Register),
        |
            #[trigger] expr_lowered(stmt_expr(b.stmts@[j]).unwrap(), h) && ends_in(h.2, bs)
}

/// A function whose body ends in `tail` returns the value of `tail`: its
/// last block returns a register that holds the value lowering `tail` gave,
/// on the way to its blocks.  When `exact`, no block was finished after
/// that value but the last one, whose instructions begin with those of the
/// current block at that point.
pub open spec fn returns_tail(f: Function, tail: SpannedExpr, exact: bool) -> bool {
    exists|w: (Register, Lowerer, FunctionLowerCtx, FunctionLowerCtx)|
        #[trigger] lowered_value(w.1, tail, w.2, w.3, w.0) && f.blocks@.len() > 0 && f.blocks@.last().terminator
            == Terminator::Return(w.0) && w.3.blocks@.len() <= f.blocks@.len() && (forall|i: int|
            0 <= i < w.3.blocks@.len() ==> #[trigger] f.blocks@[i] == w.3.blocks@[i]) && (exact ==> w.3.blocks@.len()
            + 1 == f.blocks@.len() && w.3.current_instructions@.len() <= f.blocks@.last().instructions@.len()
            && forall|i: int|
            0 <= i < w.3.current_instructions@.len() ==> #[trigger] f.blocks@.last().instructions@[i]
                == w.3.current_instructions@[i])
}

/// The names of the extern functions the items declare, in order.
pub open spec fn extern_keys(items: Seq<SpannedItem>) -> Seq<Seq<char>>
    decreases items.len(),
{
    if items.len() == 0 {
        Seq::empty()
    } else {
        extern_keys(items.drop_last()) + match items.last().node {
            Item::ExternBlock { items: decls } => decls@.map_values(|d: Spanned<ExternFnDecl>| d.node.name@),
            _ => Seq::empty(),
        }
    }
}

/// The names the methods of an impl block for `owner` are registered under
/// in `t`, in order, for the methods that are registered.
pub open spec fn method_keys(t: FunctionTable, owner: Seq<char>, methods: Seq<SpannedItem>) -> Seq<Seq<char>>
    decreases methods.len(),
{
    if methods.len() == 0 {
        Seq::empty()
    } else {
        method_keys(t, owner, methods.drop_last()) + match methods.last().node {
            Item::FnDef { name, .. } => if t.lookup(mangled(owner, name@)) is Some {
                seq![mangled(owner, name@)]
            } else {
                Seq::empty()
            },
            _ => Seq::empty(),
        }
    }
}

/// The names of the functions with bodies the items define, in order: each
/// function, and each registered method of an impl block (under its owner's
/// name, `__` and its own).
pub open spec fn body_keys(t: FunctionTable, items: Seq<SpannedItem>) -> Seq<Seq<char>>
    decreases items.len(),
{
    if items.len() == 0 {
        Seq::empty()
    } else {
        body_keys(t, items.drop_last()) + match items.last().node {
            Item::FnDef { name, .. } => seq![name@],
            Item::ImplBlock { self_type, methods } => method_keys(t, self_type@, methods@),
            _ => Seq::empty(),
        }
    }
}

/// The bodies of the registered methods of an impl block for `owner`, in
/// the order of `method_keys`.
pub open spec fn method_bodies(t: FunctionTable, owner: Seq<char>, methods: Seq<SpannedItem>) -> Seq<Spanned<Block>>
    decreases methods.len(),
{
    if methods.len() == 0 {
        Seq::empty()
    } else {
        method_bodies(t, owner, methods.drop_last()) + match methods.last().node {
            Item::FnDef { name, body, .. } => if t.lookup(mangled(owner, name@)) is Some {
                seq![body]
            } else {
                Seq::empty()
            },
            _ => Seq::empty(),
        }
    }
}

/// The bodies of the functions and registered methods the items define, in
/// the order of `body_keys`.
pub open spec fn body_blocks(t: FunctionTable, items: Seq<SpannedItem>) -> Seq<Spanned<Block>>
    decreases items.len(),
{
    if items.len() == 0 {
        Seq::empty()
    } else {
        body_blocks(t, items.drop_last()) + match items.last().node {
            Item::FnDef { body, .. } => seq![body],
            Item::ImplBlock { self_type, methods } => method_bodies(t, self_type@, methods@),
            _ => Seq::empty(),
        }
    }
}

/// The functions from `off` on are named by `keys` in the symbol table
/// `strings` (when the table never filled up).
pub open spec fn fns_named(strings: Seq<Seq<char>>, fs: Seq<Function>, keys: Seq<Seq<char>>, off: int) -> bool {
    strings.len() + 1 < u32::MAX ==> forall|k: int|
        0 <= k < keys.len() ==> named_by(strings, #[trigger] fs[off + k], keys[k])
}

/// The function `f` holds the lowered body `b`: each of its statements was
/// lowered into the blocks of `f`, and it returns the value of the final
/// expression.
pub open spec fn body_lowered(f: Function, b: Block) -> bool {
    &&& b.tail_expr is Some ==> returns_tail(f, *b.tail_expr.unwrap(), defer::no_defer_block(b))
    &&& stmts_in(b, f.blocks@)
}

/// The functions from `off` on hold the lowered `bodies`.
pub open spec fn fns_lowered(fs: Seq<Function>, bodies: Seq<Spanned<Block>>, off: int) -> bool {
    forall|k: int| 0 <= k < bodies.len() ==> body_lowered(#[trigger] fs[off + k], bodies[k].node)
}

/// Names stay as the symbol table grows and functions are added.
proof fn lemma_named_grow(
    s0: Seq<Seq<char>>,
    s1: Seq<Seq<char>>,
    fs0: Seq<Function>,
    fs1: Seq<Function>,
    keys: Seq<Seq<char>>,
    off: int,
)
    requires
        strings_kept(s0, s1),
        fns_named(s0, fs0, keys, off),
        0 <= off,
        off + keys.len() <= fs0.len() <= fs1.len(),
        forall|i: int| 0 <= i < fs0.len() ==> #[trigger] fs1[i] == fs0[i],
    ensures
        fns_named(s1, fs1, keys, off),
{
    if s1.len() + 1 < u32::MAX {
        assert forall|k: int| 0 <= k < keys.len() implies named_by(s1, #[trigger] fs1[off + k], keys[k]) by {
            assert(fs1[off + k] == fs0[off + k]);
            assert(named_by(s0, fs0[off + k], keys[k]));
        }
    }
}

/// Lowered bodies stay as functions are added.
proof fn lemma_lowered_grow(fs0: Seq<Function>, fs1: Seq<Function>, bodies: Seq<Spanned<Block>>, off: int)
    requires
        fns_lowered(fs0, bodies, off),
        0 <= off,
        off + bodies.len() <= fs0.len() <= fs1.len(),
        forall|i: int| 0 <= i < fs0.len() ==> #[trigger] fs1[i] == fs0[i],
    ensures
        fns_lowered(fs1, bodies, off),
{
    assert forall|k: int| 0 <= k < bodies.len() implies body_lowered(#[trigger] fs1[off + k], bodies[k].node) by {
        assert(fs1[off + k] == fs0[off + k]);
    }
}

/// Whether the table of string constants holds `text`.
pub open spec fn has_string(table: Seq<String>, text: Seq<char>) -> bool {
    exists|i: int| 0 <= i < table.len() && #[trigger] table[i]@ == text
}

/// The string literal a block ends with, if any.
pub open spec fn tail_string(b: Block) -> Option<Seq<char>> {
    match b.tail_expr {
        Some(t) => match t.node {
            Expr::Literal(Literal::String(text)) => Some(text@),
            _ => None,
        },
        None => None,
    }
}

/// Each body that ends with a string literal has it in the table (while
/// the table's indexes fit a `u32`).
pub open spec fn tail_strings_in(table: Seq<String>, bodies: Seq<Spanned<Block>>) -> bool {
    table.len() <= u32::MAX ==> forall|k: int|
        0 <= k < bodies.len() && (#[trigger] tail_string(bodies[k].node)) is Some ==> has_string(
            table,
            tail_string(bodies[k].node).unwrap(),
        )
}

/// A table that keeps its first entries keeps the strings it held.
proof fn lemma_strings_grow(t0: Seq<String>, t1: Seq<String>, bodies: Seq<Spanned<Block>>)
    requires
        tail_strings_in(t0, bodies),
        t0.len() <= t1.len(),
        forall|i: int| 0 <= i < t0.len() ==> #[trigger] t1[i] == t0[i],
    ensures
        tail_strings_in(t1, bodies),
{
    if t1.len() <= u32::MAX {
        assert forall|k: int|
            0 <= k < bodies.len() && (#[trigger] tail_string(bodies[k].node)) is Some implies has_string(
            t1,
            tail_string(bodies[k].node).unwrap(),
        ) by {
            let text = tail_string(bodies[k].node).unwrap();
            let i = choose|i: int| 0 <= i < t0.len() && #[trigger] t0[i]@ == text;
            assert(t1[i] == t0[i]);
        }
    }
}

/// One more function, named by `key`, extends the named ones.
proof fn lemma_named_push(s: Seq<Seq<char>>, fs: Seq<Function>, keys: Seq<Seq<char>>, off: int, key: Seq<char>)
    requires
        0 <= off,
        fs.len() == off + keys.len() + 1,
        fns_named(s, fs.drop_last(), keys, off),
        s.len() + 1 < u32::MAX ==> named_by(s, fs.last(), key),
    ensures
        fns_named(s, fs, keys.push(key), off),
{
    if s.len() + 1 < u32::MAX {
        assert forall|k: int| 0 <= k < keys.len() + 1 implies named_by(s, #[trigger] fs[off + k], keys.push(key)[k]) by {
            if k < keys.len() {
                assert(fs[off + k] == fs.drop_last()[off + k]);
            }
        }
    }
}

/// One more function, holding the lowered `body`, extends the ones that
/// hold theirs.
proof fn lemma_lowered_push(fs: Seq<Function>, bodies: Seq<Spanned<Block>>, off: int, body: Spanned<Block>)
    requires
        0 <= off,
        fs.len() == off + bodies.len() + 1,
        fns_lowered(fs.drop_last(), bodies, off),
        body_lowered(fs.last(), body.node),
    ensures
        fns_lowered(fs, bodies.push(body), off),
{
    assert forall|k: int| 0 <= k < bodies.len() + 1 implies body_lowered(#[trigger] fs[off + k], bodies.push(body)[k].node) by {
        if k < bodies.len() {
            assert(fs[off + k] == fs.drop_last()[off + k]);
        }
    }
}

/// A function with a body lowered for the function registered in `t`
/// under `key`: its parameter and return types are those of the signature.
pub open spec fn lowered_for(f: Function, t: FunctionTable, key: Seq<char>) -> bool {
    &&& !f.is_extern
    &&& match t.lookup(key) {
        Some(sig) => f.params@.len() == sig.params@.len() && f.return_type == sig.return_type && forall|i: int|
            0 <= i < sig.params@.len() ==> (#[trigger] f.params@[i]).1 == sig.params@[i].1,
        None => f.params@.len() == 0 && f.return_type == TypeId(0),
    }
}

/// The functions of a lowered program, for the items of a module and the
/// function table `t`: first one extern declaration for each extern
/// function, by its name, then a function for each name of `body_keys`.
pub open spec fn program_functions(fs: Seq<Function>, t: FunctionTable, items: Seq<SpannedItem>) -> bool {
    let ext = extern_keys(items);
    let bk = body_keys(t, items);
    &&& fs.len() == ext.len() + bk.len()
    &&& forall|i: int|
        0 <= i < ext.len() ==> (#[trigger] fs[i]).is_extern && (fs[i].extern_symbol matches Some(s) && s@ == ext[i])
    &&& forall|i: int| 0 <= i < bk.len() ==> lowered_for(#[trigger] fs[ext.len() + i], t, bk[i])
}

/// The structure of a type id in a table of kinds (the error type for an
/// unknown id).
pub open spec fn kind_in(kinds: Seq<KindView>, t: TypeId) -> KindView {
    if t.0 < kinds.len() {
        kinds[t.0 as int]
    } else {
        KindView::Error
    }
}

/// Every parameter of a reference-counted type (a struct or an enum) is
/// released in the function's last block, the one that returns.
pub open spec fn releases_object_params(f: Function, kinds: Seq<KindView>) -> bool {
    forall|k: int|
        0 <= k < f.params@.len() && k < u32::MAX && kind_is_object(kind_in(kinds, #[trigger] f.params@[k].1))
            ==> f.blocks@.last().instructions@.contains(
            Instruction::Release(Register(k as u32), Some(f.params@[k].1)),
        )
}

/// A string constant has one index: in a table without duplicates, two
/// indexes holding the same text are the same index (so lowering the same
/// literal twice refers to the same constant).
pub proof fn law_one_index_per_string(sc: Seq<String>, i: int, j: int)
    requires
        distinct_strings(sc),
        0 <= i < sc.len(),
        0 <= j < sc.len(),
        sc[i]@ == sc[j]@,
    ensures
        i == j,
{
    if i < j {
        assert(sc[i]@ != sc[j]@);
    } else if j < i {
        assert(sc[j]@ != sc[i]@);
    }
}

} // verus!
