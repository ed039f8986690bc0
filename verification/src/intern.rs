use vstd::prelude::*;

verus! {

/// Handle of an interned string.
#[derive(Clone, Copy, Debug, PartialEq, Eq, Structural)]
pub struct Symbol(pub u32);

/// Stores each distinct string once and hands out symbols for them.
#[derive(Debug)]
pub struct StringInterner {
    strings: Vec<String>,
}

impl StringInterner {
    /// The interned strings, indexed by symbol.
    pub closed spec fn strings(&self) -> Seq<Seq<char>> {
        self.strings@.map_values(|s: String| s@)
    }

    /// Each string is held once, and there are fewer than `u32::MAX`.
    pub open spec fn well_formed(&self) -> bool {
        &&& self.strings().len() < u32::MAX
        &&& forall|i: int, j: int|
            0 <= i < j < self.strings().len() ==> #[trigger] self.strings()[i]
                != #[trigger] self.strings()[j]
    }

    #[verifier::type_invariant]
    closed spec fn inv(&self) -> bool {
        self.well_formed()
    }

    pub fn new() -> (t: Self)
        ensures
            t.strings() == Seq::<Seq<char>>::empty(),
    {
        let t = StringInterner { strings: Vec::new() };
        assert(t.strings() =~= Seq::<Seq<char>>::empty());
        t
    }

    /// The symbol of `s`, adding it when it is new.  Interning the same
    /// string twice gives the same symbol.  When the table is full, the
    /// table is left as it is and symbol 0 comes back.
    pub fn intern(&mut self, s: &str) -> (sym: Symbol)
        ensures
            old(self).strings().contains(s@) ==> final(self).strings() == old(self).strings()
                && sym.0 < old(self).strings().len() && old(self).strings()[sym.0 as int] == s@,
            !old(self).strings().contains(s@) && old(self).strings().len() + 1 < u32::MAX
                ==> final(self).strings() == old(self).strings().push(s@) && sym.0 == old(
                self,
            ).strings().len(),
            !old(self).strings().contains(s@) && old(self).strings().len() + 1 >= u32::MAX
                ==> final(self).strings() == old(self).strings() && sym.0 == 0,
            old(self).strings().len() <= final(self).strings().len(),
            forall|i: int|
                0 <= i < old(self).strings().len() ==> #[trigger] final(self).strings()[i] == old(self).strings()[i],
    {
        proof {
            use_type_invariant(&*self);
        }
        let key = String::from_str(s);
        let mut i: usize = 0;
        while i < self.strings.len()
            invariant
                i <= self.strings@.len(),
                self.well_formed(),
                key@ == s@,
                forall|j: int| 0 <= j < i ==> self.strings()[j] != s@,
            decreases self.strings@.len() - i,
        {
            assert(self.strings()[i as int] == self.strings@[i as int]@);
            if self.strings[i] == key {
                return Symbol(i as u32);
            }
            i = i + 1;
        }
        proof {
            if self.strings().contains(s@) {
                let j = choose|j: int| 0 <= j < self.strings().len() && self.strings()[j] == s@;
                assert(self.strings()[j] != s@);
            }
        }
        if self.strings.len() + 1 >= u32::MAX as usize {
            return Symbol(0);
        }
        let sym = Symbol(self.strings.len() as u32);
        let ghost old_strings = self.strings();
        let mut strings = self.take_strings();
        strings.push(key);
        proof {
            let ns = strings@.map_values(|s: String| s@);
            assert(ns =~= old_strings.push(s@));
            assert forall|a: int, b: int| 0 <= a < b < ns.len() implies #[trigger] ns[a]
                != #[trigger] ns[b] by {
                if b < old_strings.len() {
                    assert(old_strings[a] != old_strings[b]);
                } else {
                    assert(old_strings[a] != s@);
                }
            }
        }
        self.strings = strings;
        proof {
            assert(self.strings() =~= old_strings.push(s@));
        }
        sym
    }

    fn take_strings(&mut self) -> (v: Vec<String>)
        ensures
            v@.map_values(|s: String| s@) == old(self).strings(),
            v@.len() == old(self).strings().len(),
    {
        let mut fresh = StringInterner::new();
        std::mem::swap(self, &mut fresh);
        fresh.strings
    }

    /// The string a symbol stands for; an unknown symbol gives the empty
    /// string.
    pub fn resolve(&self, sym: Symbol) -> (s: &str)
        ensures
            sym.0 < self.strings().len() ==> s@ == self.strings()[sym.0 as int],
            sym.0 >= self.strings().len() ==> s@ == Seq::<char>::empty(),
    {
        if (sym.0 as usize) < self.strings.len() {
            self.strings[sym.0 as usize].as_str()
        } else {
            proof {
                reveal_strlit("");
            }
            ""
        }
    }
}

impl StringInterner {
    /// A string has one symbol: two symbols of an interner that stand for
    /// the same string are the same symbol (so interning a string again gives
    /// the symbol it got first).
    pub proof fn law_one_symbol_per_string(&self, a: Symbol, b: Symbol)
        requires
            self.well_formed(),
            a.0 < self.strings().len(),
            b.0 < self.strings().len(),
            self.strings()[a.0 as int] == self.strings()[b.0 as int],
        ensures
            a == b,
    {
        if a.0 < b.0 {
            assert(self.strings()[a.0 as int] != self.strings()[b.0 as int]);
        } else if b.0 < a.0 {
            assert(self.strings()[b.0 as int] != self.strings()[a.0 as int]);
        }
    }
}

} // verus!
