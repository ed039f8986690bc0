use vstd::prelude::*;

use crate::span::{span_covers, span_len, FileId, Span};
use crate::types::TypeId;

verus! {

#[derive(Clone, Copy, Debug, PartialEq, Eq, Structural)]
pub enum SymbolKind {
    Function,
    Method,
    Struct,
    Enum,
    EnumVariant,
    Interface,
    Field,
    LocalVariable,
    Parameter,
    TypeAlias,
}

#[derive(Debug)]
pub struct DefinitionInfo {
    pub name: String,
    pub kind: SymbolKind,
    pub def_span: Span,
    pub type_id: Option<TypeId>,
}

/// Whether no span occurs twice as a key.
pub open spec fn distinct_spans<T>(s: Seq<(Span, T)>) -> bool {
    forall|i: int, j: int| 0 <= i < j < s.len() ==> s[i].0 != s[j].0
}

/// The value recorded for a span, if any.
pub open spec fn span_entry<T>(s: Seq<(Span, T)>, k: Span) -> Option<T>
    decreases s.len(),
{
    if s.len() == 0 {
        None
    } else if s.last().0 == k {
        Some(s.last().1)
    } else {
        span_entry(s.drop_last(), k)
    }
}

/// Whether entry `i` is a narrowest entry covering the position.
pub open spec fn is_narrowest<T>(s: Seq<(Span, T)>, i: int, file: FileId, offset: u32) -> bool {
    &&& 0 <= i < s.len()
    &&& span_covers(s[i].0, file, offset)
    &&& forall|j: int|
        0 <= j < s.len() && span_covers(#[trigger] s[j].0, file, offset) ==> span_len(s[i].0)
            <= span_len(s[j].0)
}

proof fn lemma_span_entry_push<T>(s: Seq<(Span, T)>, e: (Span, T), k: Span)
    ensures
        span_entry(s.push(e), k) == (if e.0 == k {
            Some(e.1)
        } else {
            span_entry(s, k)
        }),
{
    assert(s.push(e).drop_last() =~= s);
}

proof fn lemma_span_entry_update<T>(s: Seq<(Span, T)>, j: int, e: (Span, T), k: Span)
    requires
        0 <= j < s.len(),
        s[j].0 == e.0,
        distinct_spans(s),
    ensures
        span_entry(s.update(j, e), k) == (if e.0 == k {
            Some(e.1)
        } else {
            span_entry(s, k)
        }),
    decreases s.len(),
{
    let t = s.update(j, e);
    if j == s.len() - 1 {
        assert(t.drop_last() =~= s.drop_last());
        if e.0 != k {
        }
    } else {
        assert(t.drop_last() =~= s.drop_last().update(j, e));
        assert(s.last().0 != e.0);
        lemma_span_entry_update(s.drop_last(), j, e, k);
    }
}

/// Record `value` for `key`, replacing an earlier entry for the same key.
fn record<T>(list: &mut Vec<(Span, T)>, key: Span, value: T)
    requires
        distinct_spans(old(list)@),
    ensures
        distinct_spans(final(list)@),
        forall|k: Span|
            #[trigger] span_entry(final(list)@, k) == (if k == key {
                Some(value)
            } else {
                span_entry(old(list)@, k)
            }),
{
    let mut i: usize = 0;
    while i < list.len()
        invariant
            i <= list@.len(),
            list@ == old(list)@,
            distinct_spans(old(list)@),
            forall|j: int| 0 <= j < i ==> list@[j].0 != key,
        decreases list@.len() - i,
    {
        if list[i].0 == key {
            let ghost old_list = list@;
            let ghost e = (key, value);
            proof {
                assert forall|k: Span|
                    #[trigger] span_entry(old_list.update(i as int, e), k) == (if k == key {
                        Some(value)
                    } else {
                        span_entry(old_list, k)
                    }) by {
                    lemma_span_entry_update(old_list, i as int, e, k);
                }
            }
            list.set(i, (key, value));
            assert(list@ =~= old_list.update(i as int, e));
            assert forall|a: int, b: int| 0 <= a < b < list@.len() implies list@[a].0
                != list@[b].0 by {
                assert(old_list[a].0 != old_list[b].0);
            }
            return;
        }
        i = i + 1;
    }
    let ghost old_list = list@;
    let ghost e = (key, value);
    proof {
        assert forall|k: Span|
            #[trigger] span_entry(old_list.push(e), k) == (if k == key {
                Some(value)
            } else {
                span_entry(old_list, k)
            }) by {
            lemma_span_entry_push(old_list, e, k);
        }
    }
    list.push((key, value));
    assert(list@ =~= old_list.push(e));
    assert forall|a: int, b: int| 0 <= a < b < list@.len() implies list@[a].0 != list@[b].0 by {
        if b < old_list.len() {
            assert(old_list[a].0 != old_list[b].0);
        }
    }
}

/// Narrowest-span search: the index of the first entry covering the
/// position with the least length, if any entry covers it.
fn narrowest<T>(list: &Vec<(Span, T)>, file_id: FileId, offset: u32) -> (r: Option<usize>)
    ensures
        match r {
            Some(i) => is_narrowest(list@, i as int, file_id, offset),
            None => forall|j: int|
                0 <= j < list@.len() ==> !span_covers(#[trigger] list@[j].0, file_id, offset),
        },
{
    let mut best: Option<usize> = None;
    let mut i: usize = 0;
    while i < list.len()
        invariant
            i <= list@.len(),
            match best {
                Some(b) => b < i && span_covers(list@[b as int].0, file_id, offset) && forall|
                    j: int,
                |
                    0 <= j < i && span_covers(#[trigger] list@[j].0, file_id, offset) ==> span_len(
                        list@[b as int].0,
                    ) <= span_len(list@[j].0),
                None => forall|j: int|
                    0 <= j < i ==> !span_covers(#[trigger] list@[j].0, file_id, offset),
            },
        decreases list@.len() - i,
    {
        let span = list[i].0;
        if span.file_id == file_id && span.start <= offset && offset < span.end {
            match best {
                Some(b) => {
                    if span.len() < list[b].0.len() {
                        best = Some(i);
                    }
                },
                None => {
                    best = Some(i);
                },
            }
        }
        i = i + 1;
    }
    best
}

/// Per-position facts for editor features: where each use's definition is
/// and what type each expression has.
#[derive(Debug)]
pub struct SymbolTable {
    /// Usage span and the definition it refers to (for go-to-definition).
    pub definitions: Vec<(Span, DefinitionInfo)>,
    /// Expression span and its type (for hover).
    pub expr_types: Vec<(Span, TypeId)>,
    /// Top-level symbols for completion: (name, kind, type, definition span).
    pub file_symbols: Vec<(String, SymbolKind, Option<TypeId>, Span)>,
}

impl SymbolTable {
    /// Each span is recorded at most once in each table.
    pub open spec fn well_formed(&self) -> bool {
        distinct_spans(self.definitions@) && distinct_spans(self.expr_types@)
    }

    pub fn new() -> (t: Self)
        ensures
            t.well_formed(),
            t.definitions@.len() == 0,
            t.expr_types@.len() == 0,
            t.file_symbols@.len() == 0,
    {
        SymbolTable { definitions: Vec::new(), expr_types: Vec::new(), file_symbols: Vec::new() }
    }

    /// Record what a (non-empty) usage span refers to; a later record for
    /// the same span replaces the earlier one.
    pub fn record_definition(&mut self, usage_span: Span, info: DefinitionInfo)
        requires
            old(self).well_formed(),
        ensures
            final(self).well_formed(),
            final(self).expr_types@ == old(self).expr_types@,
            final(self).file_symbols@ == old(self).file_symbols@,
            forall|k: Span|
                #[trigger] span_entry(final(self).definitions@, k) == (if k == usage_span
                    && usage_span.start < usage_span.end {
                    Some(info)
                } else {
                    span_entry(old(self).definitions@, k)
                }),
    {
        if !usage_span.is_empty() {
            record(&mut self.definitions, usage_span, info);
        }
    }

    /// Record the type of a (non-empty) expression span.
    pub fn record_expr_type(&mut self, span: Span, ty: TypeId)
        requires
            old(self).well_formed(),
        ensures
            final(self).well_formed(),
            final(self).definitions@ == old(self).definitions@,
            final(self).file_symbols@ == old(self).file_symbols@,
            forall|k: Span|
                #[trigger] span_entry(final(self).expr_types@, k) == (if k == span
                    && span.start < span.end {
                    Some(ty)
                } else {
                    span_entry(old(self).expr_types@, k)
                }),
    {
        if !span.is_empty() {
            record(&mut self.expr_types, span, ty);
        }
    }

    /// Find the definition for a given file position (byte offset):
    /// the one recorded for the narrowest span containing the offset.
    pub fn definition_at(&self, file_id: FileId, offset: u32) -> (r: Option<&DefinitionInfo>)
        ensures
            r is None <==> forall|j: int|
                0 <= j < self.definitions@.len() ==> !span_covers(
                    #[trigger] self.definitions@[j].0,
                    file_id,
                    offset,
                ),
            r is Some ==> exists|i: int|
                is_narrowest(self.definitions@, i, file_id, offset) && self.definitions@[i].1
                    == *r.unwrap(),
    {
        match narrowest(&self.definitions, file_id, offset) {
            Some(i) => Some(&self.definitions[i].1),
            None => None,
        }
    }

    /// Find the type for a given file position (byte offset):
    /// the one recorded for the narrowest span containing the offset.
    pub fn type_at(&self, file_id: FileId, offset: u32) -> (r: Option<TypeId>)
        ensures
            r is None <==> forall|j: int|
                0 <= j < self.expr_types@.len() ==> !span_covers(
                    #[trigger] self.expr_types@[j].0,
                    file_id,
                    offset,
                ),
            r is Some ==> exists|i: int|
                is_narrowest(self.expr_types@, i, file_id, offset) && self.expr_types@[i].1
                    == r.unwrap(),
    {
        match narrowest(&self.expr_types, file_id, offset) {
            Some(i) => Some(self.expr_types[i].1),
            None => None,
        }
    }
}

} // verus!
