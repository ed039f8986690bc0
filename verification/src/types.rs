use vstd::prelude::*;

verus! {

/// Built-in scalar types.
#[derive(Clone, Copy, Debug, PartialEq, Eq, Structural)]
pub enum PrimitiveType {
    Unit,
    I8,
    I16,
    I32,
    I64,
    U8,
    U16,
    U32,
    U64,
    F32,
    F64,
    Bool,
    Char,
}

pub open spec fn prim_is_integer(p: PrimitiveType) -> bool {
    match p {
        PrimitiveType::I8 | PrimitiveType::I16 | PrimitiveType::I32 | PrimitiveType::I64
        | PrimitiveType::U8 | PrimitiveType::U16 | PrimitiveType::U32 | PrimitiveType::U64 => true,
        _ => false,
    }
}

pub open spec fn prim_is_float(p: PrimitiveType) -> bool {
    p == PrimitiveType::F32 || p == PrimitiveType::F64
}

pub open spec fn prim_is_signed(p: PrimitiveType) -> bool {
    match p {
        PrimitiveType::I8 | PrimitiveType::I16 | PrimitiveType::I32 | PrimitiveType::I64
        | PrimitiveType::F32 | PrimitiveType::F64 => true,
        _ => false,
    }
}

impl PrimitiveType {
    pub fn is_integer(&self) -> (r: bool)
        ensures
            r == prim_is_integer(*self),
    {
        match self {
            PrimitiveType::I8 | PrimitiveType::I16 | PrimitiveType::I32 | PrimitiveType::I64
            | PrimitiveType::U8 | PrimitiveType::U16 | PrimitiveType::U32 | PrimitiveType::U64 => true,
            _ => false,
        }
    }

    pub fn is_float(&self) -> (r: bool)
        ensures
            r == prim_is_float(*self),
    {
        match self {
            PrimitiveType::F32 | PrimitiveType::F64 => true,
            _ => false,
        }
    }

    pub fn is_numeric(&self) -> (r: bool)
        ensures
            r == (prim_is_integer(*self) || prim_is_float(*self)),
    {
        self.is_integer() || self.is_float()
    }

    pub fn is_signed(&self) -> (r: bool)
        ensures
            r == prim_is_signed(*self),
    {
        match self {
            PrimitiveType::I8 | PrimitiveType::I16 | PrimitiveType::I32 | PrimitiveType::I64
            | PrimitiveType::F32 | PrimitiveType::F64 => true,
            _ => false,
        }
    }
}

/// Handle of an interned type.
#[derive(Clone, Copy, Debug, PartialEq, Eq, Structural)]
pub struct TypeId(pub u32);

/// The structure of a type.
#[derive(Clone, Debug)]
pub enum TypeKind {
    Primitive(PrimitiveType),
    String,
    RawPtr,
    MutRawPtr,
    CStr,
    Never,
    Struct { name: String, fields: Vec<(String, TypeId)>, is_extern: bool },
    Enum { name: String, variants: Vec<EnumVariant> },
    Error,
}

/// A variant of an enum type: its name and the types of its fields.
#[derive(Clone, Debug)]
pub struct EnumVariant {
    pub name: String,
    pub fields: Vec<(String, TypeId)>,
}

/// A type's structure as a mathematical value.
pub enum KindView {
    Primitive(PrimitiveType),
    String,
    RawPtr,
    MutRawPtr,
    CStr,
    Never,
    Struct { name: Seq<char>, fields: Seq<(Seq<char>, TypeId)>, is_extern: bool },
    Enum { name: Seq<char>, variants: Seq<(Seq<char>, Seq<(Seq<char>, TypeId)>)> },
    Error,
}

pub open spec fn fields_view(fields: Seq<(String, TypeId)>) -> Seq<(Seq<char>, TypeId)> {
    fields.map_values(|f: (String, TypeId)| (f.0@, f.1))
}

/// The variants of an enum, as values.
pub open spec fn variants_view(vs: Seq<EnumVariant>) -> Seq<(Seq<char>, Seq<(Seq<char>, TypeId)>)> {
    vs.map_values(|v: EnumVariant| (v.name@, fields_view(v.fields@)))
}

impl View for TypeKind {
    type V = KindView;

    open spec fn view(&self) -> KindView {
        match self {
            TypeKind::Primitive(p) => KindView::Primitive(*p),
            TypeKind::String => KindView::String,
            TypeKind::RawPtr => KindView::RawPtr,
            TypeKind::MutRawPtr => KindView::MutRawPtr,
            TypeKind::CStr => KindView::CStr,
            TypeKind::Never => KindView::Never,
            TypeKind::Struct { name, fields, is_extern } => KindView::Struct {
                name: name@,
                fields: fields_view(fields@),
                is_extern: *is_extern,
            },
            TypeKind::Enum { name, variants } => KindView::Enum {
                name: name@,
                variants: variants_view(variants@),
            },
            TypeKind::Error => KindView::Error,
        }
    }
}

/// Equality of two field lists, by their views.
pub fn fields_eq(f1: &Vec<(String, TypeId)>, f2: &Vec<(String, TypeId)>) -> (r: bool)
    ensures
        r == (fields_view(f1@) == fields_view(f2@)),
{
    if f1.len() != f2.len() {
        assert(fields_view(f1@).len() != fields_view(f2@).len());
        return false;
    }
    let mut i: usize = 0;
    while i < f1.len()
        invariant
            i <= f1@.len(),
            f1@.len() == f2@.len(),
            forall|j: int| 0 <= j < i ==> fields_view(f1@)[j] == fields_view(f2@)[j],
        decreases f1@.len() - i,
    {
        if !(f1[i].0 == f2[i].0) || f1[i].1 != f2[i].1 {
            assert(fields_view(f1@)[i as int] != fields_view(f2@)[i as int]);
            return false;
        }
        i = i + 1;
    }
    assert(fields_view(f1@) =~= fields_view(f2@));
    true
}

/// Structural equality of two kinds, by their views.
#[verifier::loop_isolation(false)]
pub fn kind_eq(a: &TypeKind, b: &TypeKind) -> (r: bool)
    ensures
        r == (a@ == b@),
{
    match (a, b) {
        (TypeKind::Primitive(p), TypeKind::Primitive(q)) => *p == *q,
        (TypeKind::String, TypeKind::String) => true,
        (TypeKind::RawPtr, TypeKind::RawPtr) => true,
        (TypeKind::MutRawPtr, TypeKind::MutRawPtr) => true,
        (TypeKind::CStr, TypeKind::CStr) => true,
        (TypeKind::Never, TypeKind::Never) => true,
        (TypeKind::Error, TypeKind::Error) => true,
        (
            TypeKind::Struct { name: n1, fields: f1, is_extern: e1 },
            TypeKind::Struct { name: n2, fields: f2, is_extern: e2 },
        ) => *n1 == *n2 && *e1 == *e2 && fields_eq(f1, f2),
        (TypeKind::Enum { name: n1, variants: v1 }, TypeKind::Enum { name: n2, variants: v2 }) => {
            if !(*n1 == *n2) || v1.len() != v2.len() {
                assert(n1@ != n2@ || variants_view(v1@).len() != variants_view(v2@).len());
                return false;
            }
            let mut i: usize = 0;
            while i < v1.len()
                invariant
                    i <= v1@.len(),
                    v1@.len() == v2@.len(),
                    forall|j: int| 0 <= j < i ==> variants_view(v1@)[j] == variants_view(v2@)[j],
                decreases v1@.len() - i,
            {
                if !(v1[i].name == v2[i].name) || !fields_eq(&v1[i].fields, &v2[i].fields) {
                    assert(variants_view(v1@)[i as int] != variants_view(v2@)[i as int]);
                    return false;
                }
                i = i + 1;
            }
            assert(variants_view(v1@) =~= variants_view(v2@));
            true
        },
        _ => false,
    }
}

/// Ids of the types every interner starts with.
pub open spec fn builtin_kind(i: int) -> KindView {
    if i == 0 {
        KindView::Primitive(PrimitiveType::Unit)
    } else if i == 1 {
        KindView::Primitive(PrimitiveType::I8)
    } else if i == 2 {
        KindView::Primitive(PrimitiveType::I16)
    } else if i == 3 {
        KindView::Primitive(PrimitiveType::I32)
    } else if i == 4 {
        KindView::Primitive(PrimitiveType::I64)
    } else if i == 5 {
        KindView::Primitive(PrimitiveType::U8)
    } else if i == 6 {
        KindView::Primitive(PrimitiveType::U16)
    } else if i == 7 {
        KindView::Primitive(PrimitiveType::U32)
    } else if i == 8 {
        KindView::Primitive(PrimitiveType::U64)
    } else if i == 9 {
        KindView::Primitive(PrimitiveType::F32)
    } else if i == 10 {
        KindView::Primitive(PrimitiveType::F64)
    } else if i == 11 {
        KindView::Primitive(PrimitiveType::Bool)
    } else if i == 12 {
        KindView::Primitive(PrimitiveType::Char)
    } else if i == 13 {
        KindView::String
    } else if i == 14 {
        KindView::RawPtr
    } else if i == 15 {
        KindView::MutRawPtr
    } else if i == 16 {
        KindView::CStr
    } else if i == 17 {
        KindView::Never
    } else {
        KindView::Error
    }
}

/// How many types an interner starts with.
pub const BUILTIN_COUNT: u32 = 19;

/// Id of the error type.
pub const ERROR_ID: u32 = 18;

/// Id of a primitive type.
pub open spec fn prim_id(p: PrimitiveType) -> u32 {
    match p {
        PrimitiveType::Unit => 0,
        PrimitiveType::I8 => 1,
        PrimitiveType::I16 => 2,
        PrimitiveType::I32 => 3,
        PrimitiveType::I64 => 4,
        PrimitiveType::U8 => 5,
        PrimitiveType::U16 => 6,
        PrimitiveType::U32 => 7,
        PrimitiveType::U64 => 8,
        PrimitiveType::F32 => 9,
        PrimitiveType::F64 => 10,
        PrimitiveType::Bool => 11,
        PrimitiveType::Char => 12,
    }
}

/// Stores every type once and hands out ids for them.
#[derive(Debug)]
pub struct TypeInterner {
    kinds: Vec<TypeKind>,
}

impl TypeInterner {
    /// The interned kinds, indexed by id.
    pub closed spec fn kinds(&self) -> Seq<KindView> {
        self.kinds@.map_values(|k: TypeKind| k@)
    }

    /// The structure of the type an id stands for; an id that was never
    /// handed out stands for the error type.
    pub open spec fn kind(&self, id: TypeId) -> KindView {
        if id.0 < self.kinds().len() {
            self.kinds()[id.0 as int]
        } else {
            KindView::Error
        }
    }

    pub open spec fn len(&self) -> nat {
        self.kinds().len()
    }

    /// Every interner keeps its built-in types at their fixed ids, holds each
    /// kind once, and has fewer than `u32::MAX` entries.
    pub open spec fn well_formed(&self) -> bool {
        &&& BUILTIN_COUNT <= self.kinds().len() <= u32::MAX
        &&& forall|i: int| 0 <= i < BUILTIN_COUNT ==> #[trigger] self.kinds()[i] == builtin_kind(i)
        &&& forall|i: int, j: int|
            0 <= i < j < self.kinds().len() ==> #[trigger] self.kinds()[i] != #[trigger] self.kinds()[j]
    }

    #[verifier::type_invariant]
    closed spec fn inv(&self) -> bool {
        self.well_formed()
    }

    pub fn new() -> (t: Self)
        ensures
            t.well_formed(),
            t.len() == BUILTIN_COUNT,
    {
        let mut kinds: Vec<TypeKind> = Vec::new();
        kinds.push(TypeKind::Primitive(PrimitiveType::Unit));
        kinds.push(TypeKind::Primitive(PrimitiveType::I8));
        kinds.push(TypeKind::Primitive(PrimitiveType::I16));
        kinds.push(TypeKind::Primitive(PrimitiveType::I32));
        kinds.push(TypeKind::Primitive(PrimitiveType::I64));
        kinds.push(TypeKind::Primitive(PrimitiveType::U8));
        kinds.push(TypeKind::Primitive(PrimitiveType::U16));
        kinds.push(TypeKind::Primitive(PrimitiveType::U32));
        kinds.push(TypeKind::Primitive(PrimitiveType::U64));
        kinds.push(TypeKind::Primitive(PrimitiveType::F32));
        kinds.push(TypeKind::Primitive(PrimitiveType::F64));
        kinds.push(TypeKind::Primitive(PrimitiveType::Bool));
        kinds.push(TypeKind::Primitive(PrimitiveType::Char));
        kinds.push(TypeKind::String);
        kinds.push(TypeKind::RawPtr);
        kinds.push(TypeKind::MutRawPtr);
        kinds.push(TypeKind::CStr);
        kinds.push(TypeKind::Never);
        kinds.push(TypeKind::Error);
        let t = TypeInterner { kinds };
        assert forall|i: int| 0 <= i < BUILTIN_COUNT implies #[trigger] t.kinds()[i] == builtin_kind(
            i,
        ) by {}
        assert forall|i: int, j: int|
            0 <= i < j < t.kinds().len() implies #[trigger] t.kinds()[i] != #[trigger] t.kinds()[j] by {
            assert(t.kinds()[i] == builtin_kind(i));
            assert(t.kinds()[j] == builtin_kind(j));
        }
        t
    }

    pub fn primitive(&self, p: PrimitiveType) -> (id: TypeId)
        ensures
            id.0 == prim_id(p),
            self.kind(id) == KindView::Primitive(p),
    {
        proof {
            use_type_invariant(self);
            assert(self.kinds()[prim_id(p) as int] == builtin_kind(prim_id(p) as int));
        }
        match p {
            PrimitiveType::Unit => TypeId(0),
            PrimitiveType::I8 => TypeId(1),
            PrimitiveType::I16 => TypeId(2),
            PrimitiveType::I32 => TypeId(3),
            PrimitiveType::I64 => TypeId(4),
            PrimitiveType::U8 => TypeId(5),
            PrimitiveType::U16 => TypeId(6),
            PrimitiveType::U32 => TypeId(7),
            PrimitiveType::U64 => TypeId(8),
            PrimitiveType::F32 => TypeId(9),
            PrimitiveType::F64 => TypeId(10),
            PrimitiveType::Bool => TypeId(11),
            PrimitiveType::Char => TypeId(12),
        }
    }

    pub fn unit(&self) -> (id: TypeId)
        ensures
            id == TypeId(0),
            self.kind(id) == KindView::Primitive(PrimitiveType::Unit),
    {
        self.primitive(PrimitiveType::Unit)
    }

    pub fn i32(&self) -> (id: TypeId)
        ensures
            id == TypeId(3),
            self.kind(id) == KindView::Primitive(PrimitiveType::I32),
    {
        self.primitive(PrimitiveType::I32)
    }

    pub fn i64(&self) -> (id: TypeId)
        ensures
            id == TypeId(4),
            self.kind(id) == KindView::Primitive(PrimitiveType::I64),
    {
        self.primitive(PrimitiveType::I64)
    }

    pub fn u64(&self) -> (id: TypeId)
        ensures
            id == TypeId(8),
            self.kind(id) == KindView::Primitive(PrimitiveType::U64),
    {
        self.primitive(PrimitiveType::U64)
    }

    pub fn bool(&self) -> (id: TypeId)
        ensures
            id == TypeId(11),
            self.kind(id) == KindView::Primitive(PrimitiveType::Bool),
    {
        self.primitive(PrimitiveType::Bool)
    }

    pub fn char_type(&self) -> (id: TypeId)
        ensures
            id == TypeId(12),
            self.kind(id) == KindView::Primitive(PrimitiveType::Char),
    {
        self.primitive(PrimitiveType::Char)
    }

    pub fn string(&self) -> (id: TypeId)
        ensures
            id == TypeId(13),
            self.kind(id) == KindView::String,
    {
        proof {
            use_type_invariant(self);
            assert(self.kinds()[13] == builtin_kind(13));
        }
        TypeId(13)
    }

    pub fn raw_pointer(&self) -> (id: TypeId)
        ensures
            id == TypeId(14),
            self.kind(id) == KindView::RawPtr,
    {
        proof {
            use_type_invariant(self);
            assert(self.kinds()[14] == builtin_kind(14));
        }
        TypeId(14)
    }

    pub fn mut_raw_pointer(&self) -> (id: TypeId)
        ensures
            id == TypeId(15),
            self.kind(id) == KindView::MutRawPtr,
    {
        proof {
            use_type_invariant(self);
            assert(self.kinds()[15] == builtin_kind(15));
        }
        TypeId(15)
    }

    pub fn cstr(&self) -> (id: TypeId)
        ensures
            id == TypeId(16),
            self.kind(id) == KindView::CStr,
    {
        proof {
            use_type_invariant(self);
            assert(self.kinds()[16] == builtin_kind(16));
        }
        TypeId(16)
    }

    pub fn never(&self) -> (id: TypeId)
        ensures
            id == TypeId(17),
            self.kind(id) == KindView::Never,
    {
        proof {
            use_type_invariant(self);
            assert(self.kinds()[17] == builtin_kind(17));
        }
        TypeId(17)
    }

    pub fn error(&self) -> (id: TypeId)
        ensures
            id == TypeId(ERROR_ID),
            self.kind(id) == KindView::Error,
    {
        proof {
            use_type_invariant(self);
            assert(self.kinds()[18] == builtin_kind(18));
        }
        TypeId(ERROR_ID)
    }

    /// The structure of a type; an unknown id resolves to the error type.
    pub fn resolve(&self, id: TypeId) -> (k: &TypeKind)
        ensures
            k@ == self.kind(id),
    {
        proof {
            use_type_invariant(self);
            assert(self.kinds()[18] == builtin_kind(18));
        }
        if (id.0 as usize) < self.kinds.len() {
            &self.kinds[id.0 as usize]
        } else {
            &self.kinds[ERROR_ID as usize]
        }
    }

    /// The id of `kind`, adding it when it is new.  Interning the same kind
    /// twice gives the same id; distinct kinds get distinct ids.  Once the
    /// table is full, a new kind gets the error type's id.
    pub fn intern(&mut self, kind: TypeKind) -> (id: TypeId)
        ensures
            final(self).len() >= old(self).len(),
            forall|i: int| 0 <= i < old(self).len() ==> #[trigger] final(self).kinds()[i] == old(self).kinds()[i],
            old(self).kinds().contains(kind@) ==> final(self).len() == old(self).len()
                && final(self).kind(id) == kind@ && id.0 < old(self).len(),
            !old(self).kinds().contains(kind@) && old(self).len() < u32::MAX ==> final(self).kinds()
                == old(self).kinds().push(kind@) && id.0 == old(self).len(),
            !old(self).kinds().contains(kind@) && old(self).len() >= u32::MAX ==> final(self).kinds()
                == old(self).kinds() && id == TypeId(ERROR_ID),
            final(self).well_formed(),
    {
        proof {
            use_type_invariant(&*self);
        }
        let mut i: usize = 0;
        while i < self.kinds.len()
            invariant
                i <= self.kinds@.len(),
                self.well_formed(),
                self.kinds@.len() == self.kinds().len(),
                forall|j: int| 0 <= j < i ==> self.kinds()[j] != kind@,
            decreases self.kinds@.len() - i,
        {
            assert(self.kinds()[i as int] == self.kinds@[i as int]@);
            if kind_eq(&self.kinds[i], &kind) {
                assert(self.kinds()[i as int] == self.kinds@[i as int]@);
                return TypeId(i as u32);
            }
            i = i + 1;
        }
        proof {
            if self.kinds().contains(kind@) {
                let j = choose|j: int| 0 <= j < self.kinds().len() && self.kinds()[j] == kind@;
                assert(self.kinds()[j] != kind@);
            }
        }
        if self.kinds.len() >= u32::MAX as usize {
            return TypeId(ERROR_ID);
        }
        let id = TypeId(self.kinds.len() as u32);
        let ghost old_kinds = self.kinds();
        let mut kinds = self.take_kinds();
        kinds.push(kind);
        proof {
            let nk = kinds@.map_values(|k: TypeKind| k@);
            assert(nk =~= old_kinds.push(kind@));
            assert forall|a: int, b: int| 0 <= a < b < nk.len() implies #[trigger] nk[a]
                != #[trigger] nk[b] by {
                if b < old_kinds.len() {
                    assert(old_kinds[a] != old_kinds[b]);
                } else {
                    assert(old_kinds[a] != kind@);
                }
            }
            assert forall|a: int| 0 <= a < BUILTIN_COUNT implies #[trigger] nk[a] == builtin_kind(a) by {
                assert(old_kinds[a] == builtin_kind(a));
            }
        }
        self.kinds = kinds;
        proof {
            assert(self.kinds() =~= old_kinds.push(kind@));
        }
        id
    }

    /// Move the table out, leaving a fresh one in its place.
    fn take_kinds(&mut self) -> (k: Vec<TypeKind>)
        ensures
            k@.map_values(|k: TypeKind| k@) == old(self).kinds(),
            k@.len() == old(self).kinds().len(),
    {
        let mut fresh = TypeInterner::new();
        std::mem::swap(self, &mut fresh);
        fresh.kinds
    }
}


pub open spec fn kind_is_numeric(k: KindView) -> bool {
    k matches KindView::Primitive(p) && (prim_is_integer(p) || prim_is_float(p))
}

pub open spec fn kind_is_integer(k: KindView) -> bool {
    k matches KindView::Primitive(p) && prim_is_integer(p)
}

pub open spec fn kind_is_float(k: KindView) -> bool {
    k matches KindView::Primitive(p) && prim_is_float(p)
}

pub open spec fn kind_is_signed(k: KindView) -> bool {
    k matches KindView::Primitive(p) && prim_is_signed(p)
}

pub open spec fn kind_is_struct(k: KindView) -> bool {
    k is Struct
}

/// Types whose values live on the heap under reference counting.
pub open spec fn kind_is_reference(k: KindView) -> bool {
    k is Struct || k is Enum || k is String
}

/// Reference-counted types other than strings (whose storage is managed
/// apart): structs and enums.
pub open spec fn kind_is_object(k: KindView) -> bool {
    k is Struct || k is Enum
}

/// The name a type is shown by in messages and mangled method names.
pub open spec fn prim_name(p: PrimitiveType) -> Seq<char> {
    match p {
        PrimitiveType::Unit => "unit"@,
        PrimitiveType::I8 => "i8"@,
        PrimitiveType::I16 => "i16"@,
        PrimitiveType::I32 => "i32"@,
        PrimitiveType::I64 => "i64"@,
        PrimitiveType::U8 => "u8"@,
        PrimitiveType::U16 => "u16"@,
        PrimitiveType::U32 => "u32"@,
        PrimitiveType::U64 => "u64"@,
        PrimitiveType::F32 => "f32"@,
        PrimitiveType::F64 => "f64"@,
        PrimitiveType::Bool => "bool"@,
        PrimitiveType::Char => "char"@,
    }
}

pub open spec fn kind_name(k: KindView) -> Seq<char> {
    match k {
        KindView::Primitive(p) => prim_name(p),
        KindView::String => "string"@,
        KindView::RawPtr => "RawPtr"@,
        KindView::MutRawPtr => "MutRawPtr"@,
        KindView::CStr => "CStr"@,
        KindView::Never => "!"@,
        KindView::Struct { name, .. } => name,
        KindView::Enum { name, .. } => name,
        KindView::Error => "<error>"@,
    }
}

pub fn prim_name_string(p: PrimitiveType) -> (s: String)
    ensures
        s@ == prim_name(p),
{
    match p {
        PrimitiveType::Unit => String::from_str("unit"),
        PrimitiveType::I8 => String::from_str("i8"),
        PrimitiveType::I16 => String::from_str("i16"),
        PrimitiveType::I32 => String::from_str("i32"),
        PrimitiveType::I64 => String::from_str("i64"),
        PrimitiveType::U8 => String::from_str("u8"),
        PrimitiveType::U16 => String::from_str("u16"),
        PrimitiveType::U32 => String::from_str("u32"),
        PrimitiveType::U64 => String::from_str("u64"),
        PrimitiveType::F32 => String::from_str("f32"),
        PrimitiveType::F64 => String::from_str("f64"),
        PrimitiveType::Bool => String::from_str("bool"),
        PrimitiveType::Char => String::from_str("char"),
    }
}

impl TypeInterner {
    pub fn is_numeric(&self, ty: TypeId) -> (r: bool)
        ensures
            r == kind_is_numeric(self.kind(ty)),
    {
        match self.resolve(ty) {
            TypeKind::Primitive(p) => p.is_numeric(),
            _ => false,
        }
    }

    pub fn is_integer_type(&self, ty: TypeId) -> (r: bool)
        ensures
            r == kind_is_integer(self.kind(ty)),
    {
        match self.resolve(ty) {
            TypeKind::Primitive(p) => p.is_integer(),
            _ => false,
        }
    }

    pub fn is_float(&self, ty: TypeId) -> (r: bool)
        ensures
            r == kind_is_float(self.kind(ty)),
    {
        match self.resolve(ty) {
            TypeKind::Primitive(p) => p.is_float(),
            _ => false,
        }
    }

    pub fn is_signed_or_float(&self, ty: TypeId) -> (r: bool)
        ensures
            r == kind_is_signed(self.kind(ty)),
    {
        match self.resolve(ty) {
            TypeKind::Primitive(p) => p.is_signed(),
            _ => false,
        }
    }

    pub fn is_struct(&self, ty: TypeId) -> (r: bool)
        ensures
            r == kind_is_struct(self.kind(ty)),
    {
        match self.resolve(ty) {
            TypeKind::Struct { .. } => true,
            _ => false,
        }
    }

    pub fn is_reference_type(&self, ty: TypeId) -> (r: bool)
        ensures
            r == kind_is_reference(self.kind(ty)),
    {
        match self.resolve(ty) {
            TypeKind::Struct { .. } | TypeKind::Enum { .. } | TypeKind::String => true,
            _ => false,
        }
    }

    pub fn is_string(&self, ty: TypeId) -> (r: bool)
        ensures
            r == (self.kind(ty) is String),
    {
        match self.resolve(ty) {
            TypeKind::String => true,
            _ => false,
        }
    }

    pub fn is_enum(&self, ty: TypeId) -> (r: bool)
        ensures
            r == (self.kind(ty) is Enum),
    {
        match self.resolve(ty) {
            TypeKind::Enum { .. } => true,
            _ => false,
        }
    }

    /// Whether values of the type are reference-counted objects (structs and
    /// enums).
    pub fn is_object(&self, ty: TypeId) -> (r: bool)
        ensures
            r == kind_is_object(self.kind(ty)),
    {
        match self.resolve(ty) {
            TypeKind::Struct { .. } | TypeKind::Enum { .. } => true,
            _ => false,
        }
    }

    /// The variants of an enum type, or none for any other type.
    pub fn enum_variants(&self, ty: TypeId) -> (v: Option<&Vec<EnumVariant>>)
        ensures
            match v {
                Some(vs) => self.kind(ty) matches KindView::Enum { variants, .. } && variants
                    == variants_view(vs@),
                None => !(self.kind(ty) is Enum),
            },
    {
        match self.resolve(ty) {
            TypeKind::Enum { variants, .. } => Some(variants),
            _ => None,
        }
    }

    /// The name a type is shown by.
    pub fn display_name(&self, ty: TypeId) -> (s: String)
        ensures
            s@ == kind_name(self.kind(ty)),
    {
        match self.resolve(ty) {
            TypeKind::Primitive(p) => prim_name_string(*p),
            TypeKind::String => String::from_str("string"),
            TypeKind::RawPtr => String::from_str("RawPtr"),
            TypeKind::MutRawPtr => String::from_str("MutRawPtr"),
            TypeKind::CStr => String::from_str("CStr"),
            TypeKind::Never => String::from_str("!"),
            TypeKind::Struct { name, .. } => name.clone(),
            TypeKind::Enum { name, .. } => name.clone(),
            TypeKind::Error => String::from_str("<error>"),
        }
    }

    /// The fields of a struct type, or none for any other type.
    pub fn struct_fields(&self, ty: TypeId) -> (f: Option<&Vec<(String, TypeId)>>)
        ensures
            match f {
                Some(fs) => self.kind(ty) matches KindView::Struct { fields, .. } && fields
                    == fields_view(fs@),
                None => !(self.kind(ty) is Struct),
            },
    {
        match self.resolve(ty) {
            TypeKind::Struct { fields, .. } => Some(fields),
            _ => None,
        }
    }
}

/// The position of the field named `name` in a field list, if any.
pub fn field_index(fields: &Vec<(String, TypeId)>, name: &String) -> (r: Option<usize>)
    ensures
        match r {
            Some(i) => i < fields@.len() && fields@[i as int].0@ == name@ && forall|j: int|
                0 <= j < i ==> fields@[j].0@ != name@,
            None => forall|j: int| 0 <= j < fields@.len() ==> fields@[j].0@ != name@,
        },
{
    let mut i: usize = 0;
    while i < fields.len()
        invariant
            i <= fields@.len(),
            forall|j: int| 0 <= j < i ==> fields@[j].0@ != name@,
        decreases fields@.len() - i,
    {
        if fields[i].0 == *name {
            return Some(i);
        }
        i = i + 1;
    }
    None
}

/// The position of the first variant named `name`, if any.
pub fn variant_index(vs: &Vec<EnumVariant>, name: &String) -> (r: Option<usize>)
    ensures
        match r {
            Some(i) => i < vs@.len() && vs@[i as int].name@ == name@ && forall|j: int|
                0 <= j < i ==> vs@[j].name@ != name@,
            None => forall|j: int| 0 <= j < vs@.len() ==> vs@[j].name@ != name@,
        },
{
    let mut i: usize = 0;
    while i < vs.len()
        invariant
            i <= vs@.len(),
            forall|j: int| 0 <= j < i ==> vs@[j].name@ != name@,
        decreases vs@.len() - i,
    {
        if vs[i].name == *name {
            return Some(i);
        }
        i = i + 1;
    }
    None
}

impl TypeInterner {
    /// A type has one id: two ids of an interner with the same structure are
    /// the same id (so interning a kind again gives the id it got first).
    pub proof fn law_one_id_per_kind(&self, a: TypeId, b: TypeId)
        requires
            self.well_formed(),
            a.0 < self.len(),
            b.0 < self.len(),
            self.kind(a) == self.kind(b),
        ensures
            a == b,
    {
        if a.0 < b.0 {
            assert(self.kinds()[a.0 as int] != self.kinds()[b.0 as int]);
        } else if b.0 < a.0 {
            assert(self.kinds()[b.0 as int] != self.kinds()[a.0 as int]);
        }
    }
}

} // verus!
