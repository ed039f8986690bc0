pub mod args;
pub mod builtins;
pub mod collect;
pub mod expr;
pub mod generics;
pub mod items;
pub mod ops;
pub mod patterns;
pub mod typing;

use vstd::prelude::*;

use crate::ast::{Item, TypeExpr};
use crate::diagnostic::{CheckerDiagnostic, DiagnosticBag};
use crate::scoped_locals::{bind, find_binding, scope_get};
use crate::span::{FileId, Span, Spanned};
use crate::symbol_table::SymbolTable;
use crate::types::{TypeId, TypeInterner, ERROR_ID};

verus! {

#[derive(Clone, Copy, Debug, PartialEq, Eq, Structural)]
pub enum FunctionKind {
    UserDefined,
    Extern,
    Builtin,
}

#[derive(Debug)]
pub struct FunctionSig {
    pub name: String,
    pub params: Vec<(String, TypeId)>,
    pub return_type: TypeId,
    pub kind: FunctionKind,
    /// Number of leading parameters without a default value.
    pub required_params: usize,
    /// Whether each parameter has a default value.
    pub has_default: Vec<bool>,
    /// Whether the first parameter is `self`.
    pub is_method: bool,
    /// Whether the first parameter is `mut self`.
    pub is_mut_method: bool,
    pub is_pub: bool,
    /// The file the function was defined in.
    pub source_file_id: FileId,
    /// The span of the function definition.
    pub def_span: Span,
}

/// The parameter names and types of a signature, as values.
pub open spec fn params_view(params: Seq<(String, TypeId)>) -> Seq<(Seq<char>, TypeId)> {
    params.map_values(|p: (String, TypeId)| (p.0@, p.1))
}

/// Two signatures that agree in everything a caller can observe.
pub open spec fn same_sig(a: FunctionSig, b: FunctionSig) -> bool {
    &&& a.name@ == b.name@
    &&& params_view(a.params@) == params_view(b.params@)
    &&& a.return_type == b.return_type
    &&& a.kind == b.kind
    &&& a.required_params == b.required_params
    &&& a.has_default@ == b.has_default@
    &&& a.is_method == b.is_method
    &&& a.is_mut_method == b.is_mut_method
    &&& a.is_pub == b.is_pub
    &&& a.source_file_id == b.source_file_id
    &&& a.def_span == b.def_span
}

impl FunctionSig {
    /// A copy of the signature.
    pub fn duplicate(&self) -> (s: FunctionSig)
        ensures
            same_sig(s, *self),
    {
        let mut params: Vec<(String, TypeId)> = Vec::new();
        let mut i: usize = 0;
        while i < self.params.len()
            invariant
                i <= self.params@.len(),
                params_view(params@) == params_view(self.params@).take(i as int),
            decreases self.params@.len() - i,
        {
            let nm = self.params[i].0.clone();
            let ghost before = params@;
            params.push((nm, self.params[i].1));
            assert(params_view(params@) =~= params_view(before).push((nm@, self.params@[i as int].1)));
            assert(params_view(params@) =~= params_view(self.params@).take(i + 1));
            i = i + 1;
        }
        assert(params_view(self.params@).take(i as int) =~= params_view(self.params@));
        let mut has_default: Vec<bool> = Vec::new();
        let mut j: usize = 0;
        while j < self.has_default.len()
            invariant
                j <= self.has_default@.len(),
                has_default@ == self.has_default@.take(j as int),
            decreases self.has_default@.len() - j,
        {
            has_default.push(self.has_default[j]);
            assert(has_default@ =~= self.has_default@.take(j + 1));
            j = j + 1;
        }
        assert(self.has_default@.take(j as int) =~= self.has_default@);
        FunctionSig {
            name: self.name.clone(),
            params,
            return_type: self.return_type,
            kind: self.kind,
            required_params: self.required_params,
            has_default,
            is_method: self.is_method,
            is_mut_method: self.is_mut_method,
            is_pub: self.is_pub,
            source_file_id: self.source_file_id,
            def_span: self.def_span,
        }
    }
}

/// The functions known to the checker, by (mangled) name.
#[derive(Debug)]
pub struct FunctionTable {
    pub entries: Vec<(String, FunctionSig)>,
}

impl FunctionTable {
    /// The signature registered under a name.
    pub open spec fn lookup(&self, name: Seq<char>) -> Option<FunctionSig> {
        scope_get(self.entries@, name)
    }

    pub fn new() -> (t: Self)
        ensures
            forall|k: Seq<char>| #[trigger] t.lookup(k) is None,
    {
        FunctionTable { entries: Vec::new() }
    }

    pub fn contains_key(&self, name: &str) -> (r: bool)
        ensures
            r == (self.lookup(name@) is Some),
    {
        let key = String::from_str(name);
        find_binding(&self.entries, &key).is_some()
    }

    pub fn get(&self, name: &str) -> (r: Option<&FunctionSig>)
        ensures
            match r {
                Some(s) => self.lookup(name@) == Some(*s),
                None => self.lookup(name@) is None,
            },
    {
        let key = String::from_str(name);
        match find_binding(&self.entries, &key) {
            Some(i) => Some(&self.entries[i].1),
            None => None,
        }
    }

    pub fn get_by_key(&self, key: &String) -> (r: Option<&FunctionSig>)
        ensures
            match r {
                Some(s) => self.lookup(key@) == Some(*s),
                None => self.lookup(key@) is None,
            },
    {
        match find_binding(&self.entries, key) {
            Some(i) => Some(&self.entries[i].1),
            None => None,
        }
    }

    pub fn insert(&mut self, name: String, sig: FunctionSig)
        ensures
            forall|k: Seq<char>|
                #[trigger] final(self).lookup(k) == (if k == name@ {
                    Some(sig)
                } else {
                    old(self).lookup(k)
                }),
    {
        bind(&mut self.entries, name, sig);
    }

    pub fn len(&self) -> (n: usize)
        ensures
            n == self.entries@.len(),
    {
        self.entries.len()
    }
}

/// What the checker knows of a local binding.
#[derive(Clone, Copy, Debug)]
pub struct LocalInfo {
    pub ty: TypeId,
    pub is_mut: bool,
    pub def_span: Span,
}

/// The result of checking a module: everything the lowerer needs.
pub struct CheckedModule {
    pub functions: FunctionTable,
    pub structs: Vec<(String, TypeId)>,
    pub enums: Vec<(String, TypeId)>,
    /// Each type alias and the type it stands for, in the order declared.
    pub type_aliases: Vec<(String, TypeId)>,
    pub types: TypeInterner,
    /// Symbol table for editor features (go-to-definition, hover, completion).
    pub symbol_table: SymbolTable,
    /// Item definition spans: item name and where it is defined.
    pub item_def_spans: Vec<(String, Span)>,
}

/// Type-checks a module.
pub struct Checker {
    pub diagnostics: DiagnosticBag,
    pub types: TypeInterner,
    pub functions: FunctionTable,
    pub structs: Vec<(String, TypeId)>,
    pub enums: Vec<(String, TypeId)>,
    /// Each type alias and the type it stands for, in the order declared.
    pub type_aliases: Vec<(String, TypeId)>,
    pub found_main: bool,
    pub require_main: bool,
    pub current_return_type: Option<TypeId>,
    /// The type `Self` stands for inside an impl block.
    pub self_type: Option<TypeId>,
    pub current_fn_name: String,
    pub item_def_spans: Vec<(String, Span)>,
    pub symbol_table: SymbolTable,
}

/// Whether `a` is a string equal to the characters of `b`.
pub fn str_is(a: &String, b: &str) -> (r: bool)
    ensures
        r == (a@ == b@),
{
    *a == String::from_str(b)
}

/// The primitive (or built-in) type a name denotes.
pub open spec fn builtin_type_named(name: Seq<char>) -> Option<TypeId> {
    if name == "i8"@ {
        Some(TypeId(1))
    } else if name == "i16"@ {
        Some(TypeId(2))
    } else if name == "i32"@ {
        Some(TypeId(3))
    } else if name == "i64"@ {
        Some(TypeId(4))
    } else if name == "u8"@ {
        Some(TypeId(5))
    } else if name == "u16"@ {
        Some(TypeId(6))
    } else if name == "u32"@ {
        Some(TypeId(7))
    } else if name == "u64"@ {
        Some(TypeId(8))
    } else if name == "f32"@ {
        Some(TypeId(9))
    } else if name == "f64"@ {
        Some(TypeId(10))
    } else if name == "bool"@ {
        Some(TypeId(11))
    } else if name == "char"@ {
        Some(TypeId(12))
    } else if name == "string"@ {
        Some(TypeId(13))
    } else if name == "RawPtr"@ {
        Some(TypeId(14))
    } else if name == "MutRawPtr"@ {
        Some(TypeId(15))
    } else if name == "CStr"@ {
        Some(TypeId(16))
    } else {
        None
    }
}

/// Each built-in type name stands for a built-in type that is shown by that
/// same name: resolving a name and then displaying the type gives the name.
pub proof fn law_builtin_names_round_trip(types: TypeInterner, name: Seq<char>)
    requires
        types.well_formed(),
        builtin_type_named(name) is Some,
    ensures
        builtin_type_named(name).unwrap().0 < crate::types::BUILTIN_COUNT,
        crate::types::kind_name(types.kind(builtin_type_named(name).unwrap())) == name,
{
    let t = builtin_type_named(name).unwrap();
    assert(types.kinds()[t.0 as int] == crate::types::builtin_kind(t.0 as int));
}

pub fn builtin_type_id(name: &String) -> (r: Option<TypeId>)
    ensures
        r == builtin_type_named(name@),
{
    if str_is(name, "i8") {
        Some(TypeId(1))
    } else if str_is(name, "i16") {
        Some(TypeId(2))
    } else if str_is(name, "i32") {
        Some(TypeId(3))
    } else if str_is(name, "i64") {
        Some(TypeId(4))
    } else if str_is(name, "u8") {
        Some(TypeId(5))
    } else if str_is(name, "u16") {
        Some(TypeId(6))
    } else if str_is(name, "u32") {
        Some(TypeId(7))
    } else if str_is(name, "u64") {
        Some(TypeId(8))
    } else if str_is(name, "f32") {
        Some(TypeId(9))
    } else if str_is(name, "f64") {
        Some(TypeId(10))
    } else if str_is(name, "bool") {
        Some(TypeId(11))
    } else if str_is(name, "char") {
        Some(TypeId(12))
    } else if str_is(name, "string") {
        Some(TypeId(13))
    } else if str_is(name, "RawPtr") {
        Some(TypeId(14))
    } else if str_is(name, "MutRawPtr") {
        Some(TypeId(15))
    } else if str_is(name, "CStr") {
        Some(TypeId(16))
    } else {
        None
    }
}

/// The type a written type denotes, given the struct table and the type of
/// `Self`; `None` for an unknown name.
pub open spec fn resolved_type(
    structs: Seq<(String, TypeId)>,
    enums: Seq<(String, TypeId)>,
    aliases: Seq<(String, TypeId)>,
    self_type: Option<TypeId>,
    ty: TypeExpr,
) -> Option<TypeId> {
    match ty {
        TypeExpr::Unit => Some(TypeId(0)),
        TypeExpr::Named(name) => if builtin_type_named(name@) is Some {
            builtin_type_named(name@)
        } else if name@ == "Self"@ {
            match self_type {
                Some(t) => Some(t),
                None => Some(TypeId(0)),
            }
        } else if scope_get(structs, name@) is Some {
            scope_get(structs, name@)
        } else if scope_get(enums, name@) is Some {
            scope_get(enums, name@)
        } else {
            scope_get(aliases, name@)
        },
    }
}

/// How many parameters come before the first one with a default.
pub open spec fn leading_required(defaults: Seq<bool>) -> nat
    decreases defaults.len(),
{
    if defaults.len() == 0 {
        0
    } else if leading_required(defaults.drop_last()) < defaults.len() - 1 {
        leading_required(defaults.drop_last())
    } else if defaults.last() {
        (defaults.len() - 1) as nat
    } else {
        defaults.len()
    }
}

/// The name of a method of `owner` after mangling: `Owner__method`.
pub open spec fn mangled(owner: Seq<char>, method: Seq<char>) -> Seq<char> {
    owner + "__"@ + method
}

pub fn mangle(owner: &String, method: &String) -> (s: String)
    ensures
        s@ == mangled(owner@, method@),
{
    let mut s = owner.clone();
    s.append("__");
    s.append(method.as_str());
    s
}

/// Nothing the collection pass must not touch changed, and diagnostics were
/// only appended, none of them about a missing `main`.
pub open spec fn diagnostics_extended(old: Checker, new: Checker) -> bool {
    &&& old.diagnostics.diagnostics@.len() <= new.diagnostics.diagnostics@.len()
    &&& forall|i: int|
        0 <= i < old.diagnostics.diagnostics@.len() ==> #[trigger] new.diagnostics.diagnostics@[i]
            == old.diagnostics.diagnostics@[i]
    &&& forall|i: int|
        old.diagnostics.diagnostics@.len() <= i < new.diagnostics.diagnostics@.len()
            ==> !(#[trigger] new.diagnostics.diagnostics@[i] is NoMainFunction)
}

impl Checker {
    pub open spec fn well_formed(&self) -> bool {
        self.symbol_table.well_formed()
    }

    /// What checking a body may change: diagnostics (appended), the symbol
    /// table and the name of the function being checked; nothing else.
    pub open spec fn body_frame(old: Checker, new: Checker) -> bool {
        &&& diagnostics_extended(old, new)
        &&& new.functions == old.functions
        &&& new.structs == old.structs
        &&& new.enums == old.enums
        &&& new.type_aliases == old.type_aliases
        &&& new.types.kinds() == old.types.kinds()
        &&& new.found_main == old.found_main
        &&& new.require_main == old.require_main
        &&& (old.current_return_type is Some ==> new.current_return_type
            == old.current_return_type)
        &&& new.self_type == old.self_type
        &&& new.item_def_spans == old.item_def_spans
        &&& new.symbol_table.file_symbols@ == old.symbol_table.file_symbols@
        &&& new.well_formed()
    }

    /// What resolving a type may change: only the diagnostics.
    pub open spec fn resolve_frame(old: Checker, new: Checker) -> bool {
        &&& new.functions == old.functions
        &&& new.structs == old.structs
        &&& new.enums == old.enums
        &&& new.type_aliases == old.type_aliases
        &&& new.types.kinds() == old.types.kinds()
        &&& new.found_main == old.found_main
        &&& new.require_main == old.require_main
        &&& new.current_return_type == old.current_return_type
        &&& new.self_type == old.self_type
        &&& new.current_fn_name == old.current_fn_name
        &&& new.item_def_spans == old.item_def_spans
        &&& new.symbol_table == old.symbol_table
    }

    pub fn new() -> (c: Self)
        ensures
            c.well_formed(),
            c.require_main,
            !c.found_main,
            c.diagnostics.diagnostics@.len() == 0,
            forall|k: Seq<char>| #[trigger] c.functions.lookup(k) is None,
            c.structs@.len() == 0,
            c.enums@.len() == 0,
            c.type_aliases@.len() == 0,
            c.self_type is None,
            c.current_return_type is None,
            c.types.len() == crate::types::BUILTIN_COUNT,
            forall|i: int|
                0 <= i < crate::types::BUILTIN_COUNT ==> #[trigger] c.types.kinds()[i] == crate::types::builtin_kind(i),
    {
        Checker {
            diagnostics: DiagnosticBag::new(),
            types: TypeInterner::new(),
            functions: FunctionTable::new(),
            structs: Vec::new(),
            enums: Vec::new(),
            type_aliases: Vec::new(),
            found_main: false,
            require_main: true,
            current_return_type: None,
            self_type: None,
            current_fn_name: String::new(),
            item_def_spans: Vec::new(),
            symbol_table: SymbolTable::new(),
        }
    }

    /// Whether a module without `main` is an error.
    pub fn require_main(self, require: bool) -> (c: Self)
        ensures
            c.require_main == require,
            c.found_main == self.found_main,
            c.diagnostics == self.diagnostics,
            c.functions == self.functions,
            c.structs == self.structs,
            c.enums == self.enums,
            c.type_aliases == self.type_aliases,
            c.self_type == self.self_type,
            c.current_return_type == self.current_return_type,
            c.symbol_table == self.symbol_table,
    {
        let mut c = self;
        c.require_main = require;
        c
    }

    /// Returns true if the accessing code is in a different file than the
    /// item's definition.
    pub fn is_cross_module_access(&self, access_span: Span, source_file_id: FileId) -> (r: bool)
        ensures
            r == (access_span.file_id != source_file_id),
    {
        access_span.file_id != source_file_id
    }

    fn add(&mut self, d: CheckerDiagnostic)
        ensures
            final(self).diagnostics.diagnostics@ == old(self).diagnostics.diagnostics@.push(d),
            final(self).functions == old(self).functions,
            final(self).structs == old(self).structs,
            final(self).enums == old(self).enums,
            final(self).type_aliases == old(self).type_aliases,
            final(self).types.kinds() == old(self).types.kinds(),
            final(self).found_main == old(self).found_main,
            final(self).require_main == old(self).require_main,
            final(self).current_return_type == old(self).current_return_type,
            final(self).self_type == old(self).self_type,
            final(self).current_fn_name == old(self).current_fn_name,
            final(self).item_def_spans == old(self).item_def_spans,
            final(self).symbol_table == old(self).symbol_table,
    {
        self.diagnostics.add(d);
    }

    /// The type a written type denotes; an unknown name is reported and
    /// resolves to the error type.
    pub fn resolve_type(&mut self, ty: &Spanned<TypeExpr>) -> (id: TypeId)
        ensures
            Self::resolve_frame(*old(self), *final(self)),
            match resolved_type(
                old(self).structs@,
                old(self).enums@,
                old(self).type_aliases@,
                old(self).self_type,
                ty.node,
            ) {
                Some(t) => id == t && final(self).diagnostics == old(self).diagnostics,
                None => id == TypeId(ERROR_ID) && final(self).diagnostics.diagnostics@ == old(
                    self,
                ).diagnostics.diagnostics@.push(
                    CheckerDiagnostic::UnknownType {
                        span: ty.span,
                        name: match ty.node {
                            TypeExpr::Named(n) => n,
                            TypeExpr::Unit => arbitrary(),
                        },
                    },
                ),
            },
    {
        match &ty.node {
            TypeExpr::Unit => TypeId(0),
            TypeExpr::Named(name) => {
                if let Some(t) = builtin_type_id(name) {
                    return t;
                }
                if str_is(name, "Self") {
                    return match self.self_type {
                        Some(t) => t,
                        None => TypeId(0),
                    };
                }
                if let Some(i) = find_binding(&self.structs, name) {
                    return self.structs[i].1;
                }
                if let Some(i) = find_binding(&self.enums, name) {
                    return self.enums[i].1;
                }
                match find_binding(&self.type_aliases, name) {
                    Some(i) => self.type_aliases[i].1,
                    None => {
                        self.add(CheckerDiagnostic::UnknownType { span: ty.span, name: name.clone() });
                        TypeId(ERROR_ID)
                    },
                }
            },
        }
    }
}

} // verus!
