use vstd::prelude::*;

use super::{Checker, FunctionKind, FunctionSig, FunctionTable};
use crate::span::{FileId, Span};
use crate::types::TypeId;

verus! {

/// The signature of each built-in function: parameter types and return type.
pub open spec fn builtin_signature(name: Seq<char>) -> Option<(Seq<TypeId>, TypeId)> {
    if name == "__str_ptr"@ {
        Some((seq![TypeId(13)], TypeId(14)))
    } else if name == "__str_len"@ {
        Some((seq![TypeId(13)], TypeId(8)))
    } else if name == "__str_concat"@ {
        Some((seq![TypeId(13), TypeId(13)], TypeId(13)))
    } else if name == "__i32_to_str"@ {
        Some((seq![TypeId(3)], TypeId(13)))
    } else if name == "__i64_to_str"@ {
        Some((seq![TypeId(4)], TypeId(13)))
    } else if name == "__f64_to_str"@ {
        Some((seq![TypeId(10)], TypeId(13)))
    } else if name == "__bool_to_str"@ {
        Some((seq![TypeId(11)], TypeId(13)))
    } else if name == "__char_to_str"@ {
        Some((seq![TypeId(12)], TypeId(13)))
    } else if name == "panic"@ {
        Some((seq![TypeId(13)], TypeId(17)))
    } else if name == "assert"@ {
        Some((seq![TypeId(11), TypeId(13)], TypeId(0)))
    } else if name == "exit"@ {
        Some((seq![TypeId(3)], TypeId(17)))
    } else if name == "cptr"@ {
        Some((seq![TypeId(4)], TypeId(14)))
    } else if name == "__str_substr"@ {
        Some((seq![TypeId(13), TypeId(4), TypeId(4)], TypeId(13)))
    } else if name == "__str_indexof"@ {
        Some((seq![TypeId(13), TypeId(13)], TypeId(4)))
    } else if name == "__str_trim"@ {
        Some((seq![TypeId(13)], TypeId(13)))
    } else if name == "__str_contains"@ {
        Some((seq![TypeId(13), TypeId(13)], TypeId(4)))
    } else if name == "__str_starts_with"@ {
        Some((seq![TypeId(13), TypeId(13)], TypeId(4)))
    } else if name == "__str_ends_with"@ {
        Some((seq![TypeId(13), TypeId(13)], TypeId(4)))
    } else if name == "__str_to_upper"@ {
        Some((seq![TypeId(13)], TypeId(13)))
    } else if name == "__str_to_lower"@ {
        Some((seq![TypeId(13)], TypeId(13)))
    } else if name == "__str_replace"@ {
        Some((seq![TypeId(13), TypeId(13), TypeId(13)], TypeId(13)))
    } else if name == "__str_repeat"@ {
        Some((seq![TypeId(13), TypeId(4)], TypeId(13)))
    } else {
        None
    }
}

/// The names of the parameters of each built-in function.
pub open spec fn builtin_param_names(name: Seq<char>) -> Seq<Seq<char>> {
    if name == "__str_ptr"@ {
        seq!["s"@]
    } else if name == "__str_len"@ {
        seq!["s"@]
    } else if name == "__str_concat"@ {
        seq!["a"@, "b"@]
    } else if name == "__i32_to_str"@ {
        seq!["v"@]
    } else if name == "__i64_to_str"@ {
        seq!["v"@]
    } else if name == "__f64_to_str"@ {
        seq!["v"@]
    } else if name == "__bool_to_str"@ {
        seq!["v"@]
    } else if name == "__char_to_str"@ {
        seq!["v"@]
    } else if name == "panic"@ {
        seq!["msg"@]
    } else if name == "assert"@ {
        seq!["condition"@, "msg"@]
    } else if name == "exit"@ {
        seq!["code"@]
    } else if name == "cptr"@ {
        seq!["value"@]
    } else if name == "__str_substr"@ {
        seq!["s"@, "start"@, "end"@]
    } else if name == "__str_indexof"@ {
        seq!["haystack"@, "needle"@]
    } else if name == "__str_trim"@ {
        seq!["s"@]
    } else if name == "__str_contains"@ {
        seq!["haystack"@, "needle"@]
    } else if name == "__str_starts_with"@ {
        seq!["s"@, "prefix"@]
    } else if name == "__str_ends_with"@ {
        seq!["s"@, "suffix"@]
    } else if name == "__str_to_upper"@ {
        seq!["s"@]
    } else if name == "__str_to_lower"@ {
        seq!["s"@]
    } else if name == "__str_replace"@ {
        seq!["s"@, "old"@, "new_str"@]
    } else if name == "__str_repeat"@ {
        seq!["s"@, "count"@]
    } else {
        Seq::empty()
    }
}

/// Whether the table holds the built-in signature for `name`.
pub open spec fn builtin_holds(t: FunctionTable, name: Seq<char>) -> bool {
    match (t.lookup(name), builtin_signature(name)) {
        (Some(sig), Some((ps, r))) => {
            &&& sig.kind == FunctionKind::Builtin
            &&& sig.params@.len() == ps.len()
            &&& forall|i: int| 0 <= i < ps.len() ==> #[trigger] sig.params@[i].1 == ps[i]
            &&& forall|i: int| 0 <= i < ps.len() ==> #[trigger] sig.params@[i].0@ == builtin_param_names(name)[i]
            &&& sig.return_type == r
            &&& sig.required_params == ps.len()
            &&& sig.has_default@.len() == ps.len()
            &&& forall|i: int| 0 <= i < ps.len() ==> !#[trigger] sig.has_default@[i]
        },
        _ => false,
    }
}

impl Checker {
    fn register_builtin(&mut self, name: &str, params: Vec<(String, TypeId)>, ret: TypeId)
        ensures
            forall|k: Seq<char>|
                k != name@ ==> #[trigger] final(self).functions.lookup(k) == old(self).functions.lookup(k),
            final(self).functions.lookup(name@) matches Some(sig) && sig.kind == FunctionKind::Builtin
                && sig.params@ == params@ && sig.return_type == ret
                && sig.required_params == params@.len() && sig.has_default@.len() == params@.len()
                && forall|i: int| 0 <= i < params@.len() ==> !#[trigger] sig.has_default@[i],
            final(self).diagnostics == old(self).diagnostics,
            final(self).structs == old(self).structs,
            final(self).enums == old(self).enums,
            final(self).type_aliases == old(self).type_aliases,
            final(self).types.kinds() == old(self).types.kinds(),
            final(self).found_main == old(self).found_main,
            final(self).require_main == old(self).require_main,
            final(self).self_type == old(self).self_type,
            final(self).current_return_type == old(self).current_return_type,
            final(self).item_def_spans == old(self).item_def_spans,
            final(self).symbol_table == old(self).symbol_table,
    {
        let n = params.len();
        let mut has_default: Vec<bool> = Vec::new();
        let mut i: usize = 0;
        while i < n
            invariant
                i <= n,
                has_default@.len() == i,
                forall|j: int| 0 <= j < i ==> !has_default@[j],
            decreases n - i,
        {
            has_default.push(false);
            i = i + 1;
        }
        let sig = FunctionSig {
            name: String::from_str(name),
            params,
            return_type: ret,
            kind: FunctionKind::Builtin,
            required_params: n,
            has_default,
            is_method: false,
            is_mut_method: false,
            is_pub: true,
            source_file_id: FileId(0),
            def_span: Span::dummy(),
        };
        self.functions.insert(String::from_str(name), sig);
    }

    /// Register the functions every program can call.
    #[verifier::rlimit(100)]
    pub fn register_builtins(&mut self)
        ensures
            forall|k: Seq<char>| builtin_signature(k) is Some ==> #[trigger] builtin_holds(final(self).functions, k),
            forall|k: Seq<char>|
                builtin_signature(k) is None ==> #[trigger] final(self).functions.lookup(k) == old(self).functions.lookup(k),
            final(self).diagnostics == old(self).diagnostics,
            final(self).structs == old(self).structs,
            final(self).enums == old(self).enums,
            final(self).type_aliases == old(self).type_aliases,
            final(self).types.kinds() == old(self).types.kinds(),
            final(self).found_main == old(self).found_main,
            final(self).require_main == old(self).require_main,
            final(self).self_type == old(self).self_type,
            final(self).current_return_type == old(self).current_return_type,
            final(self).item_def_spans == old(self).item_def_spans,
            final(self).symbol_table == old(self).symbol_table,
    {
        // Registered in reverse, so that the last registration decides each
        // name in the order `builtin_signature` tests them.
        let mut p: Vec<(String, TypeId)> = Vec::new();
        p.push((String::from_str("s"), TypeId(13)));
        p.push((String::from_str("count"), TypeId(4)));
        self.register_builtin("__str_repeat", p, TypeId(13));
        let mut p: Vec<(String, TypeId)> = Vec::new();
        p.push((String::from_str("s"), TypeId(13)));
        p.push((String::from_str("old"), TypeId(13)));
        p.push((String::from_str("new_str"), TypeId(13)));
        self.register_builtin("__str_replace", p, TypeId(13));
        let mut p: Vec<(String, TypeId)> = Vec::new();
        p.push((String::from_str("s"), TypeId(13)));
        self.register_builtin("__str_to_lower", p, TypeId(13));
        let mut p: Vec<(String, TypeId)> = Vec::new();
        p.push((String::from_str("s"), TypeId(13)));
        self.register_builtin("__str_to_upper", p, TypeId(13));
        let mut p: Vec<(String, TypeId)> = Vec::new();
        p.push((String::from_str("s"), TypeId(13)));
        p.push((String::from_str("suffix"), TypeId(13)));
        self.register_builtin("__str_ends_with", p, TypeId(4));
        let mut p: Vec<(String, TypeId)> = Vec::new();
        p.push((String::from_str("s"), TypeId(13)));
        p.push((String::from_str("prefix"), TypeId(13)));
        self.register_builtin("__str_starts_with", p, TypeId(4));
        let mut p: Vec<(String, TypeId)> = Vec::new();
        p.push((String::from_str("haystack"), TypeId(13)));
        p.push((String::from_str("needle"), TypeId(13)));
        self.register_builtin("__str_contains", p, TypeId(4));
        let mut p: Vec<(String, TypeId)> = Vec::new();
        p.push((String::from_str("s"), TypeId(13)));
        self.register_builtin("__str_trim", p, TypeId(13));
        let mut p: Vec<(String, TypeId)> = Vec::new();
        p.push((String::from_str("haystack"), TypeId(13)));
        p.push((String::from_str("needle"), TypeId(13)));
        self.register_builtin("__str_indexof", p, TypeId(4));
        let mut p: Vec<(String, TypeId)> = Vec::new();
        p.push((String::from_str("s"), TypeId(13)));
        p.push((String::from_str("start"), TypeId(4)));
        p.push((String::from_str("end"), TypeId(4)));
        self.register_builtin("__str_substr", p, TypeId(13));
        let mut p: Vec<(String, TypeId)> = Vec::new();
        p.push((String::from_str("value"), TypeId(4)));
        self.register_builtin("cptr", p, TypeId(14));
        let mut p: Vec<(String, TypeId)> = Vec::new();
        p.push((String::from_str("code"), TypeId(3)));
        self.register_builtin("exit", p, TypeId(17));
        let mut p: Vec<(String, TypeId)> = Vec::new();
        p.push((String::from_str("condition"), TypeId(11)));
        p.push((String::from_str("msg"), TypeId(13)));
        self.register_builtin("assert", p, TypeId(0));
        let mut p: Vec<(String, TypeId)> = Vec::new();
        p.push((String::from_str("msg"), TypeId(13)));
        self.register_builtin("panic", p, TypeId(17));
        let mut p: Vec<(String, TypeId)> = Vec::new();
        p.push((String::from_str("v"), TypeId(12)));
        self.register_builtin("__char_to_str", p, TypeId(13));
        let mut p: Vec<(String, TypeId)> = Vec::new();
        p.push((String::from_str("v"), TypeId(11)));
        self.register_builtin("__bool_to_str", p, TypeId(13));
        let mut p: Vec<(String, TypeId)> = Vec::new();
        p.push((String::from_str("v"), TypeId(10)));
        self.register_builtin("__f64_to_str", p, TypeId(13));
        let mut p: Vec<(String, TypeId)> = Vec::new();
        p.push((String::from_str("v"), TypeId(4)));
        self.register_builtin("__i64_to_str", p, TypeId(13));
        let mut p: Vec<(String, TypeId)> = Vec::new();
        p.push((String::from_str("v"), TypeId(3)));
        self.register_builtin("__i32_to_str", p, TypeId(13));
        let mut p: Vec<(String, TypeId)> = Vec::new();
        p.push((String::from_str("a"), TypeId(13)));
        p.push((String::from_str("b"), TypeId(13)));
        self.register_builtin("__str_concat", p, TypeId(13));
        let mut p: Vec<(String, TypeId)> = Vec::new();
        p.push((String::from_str("s"), TypeId(13)));
        self.register_builtin("__str_len", p, TypeId(8));
        let mut p: Vec<(String, TypeId)> = Vec::new();
        p.push((String::from_str("s"), TypeId(13)));
        self.register_builtin("__str_ptr", p, TypeId(14));
    }
}

} // verus!
