use vstd::prelude::*;

verus! {

/// The binding one scope gives a name: its last entry with that name.
pub open spec fn scope_get<V>(s: Seq<(String, V)>, k: Seq<char>) -> Option<V>
    decreases s.len(),
{
    if s.len() == 0 {
        None
    } else if s.last().0@ == k {
        Some(s.last().1)
    } else {
        scope_get(s.drop_last(), k)
    }
}

/// The binding a stack of scopes gives a name, searching the innermost
/// (last) scope first.
pub open spec fn lookup<V>(sc: Seq<Seq<(String, V)>>, k: Seq<char>) -> Option<V>
    decreases sc.len(),
{
    if sc.len() == 0 {
        None
    } else if scope_get(sc.last(), k) is Some {
        scope_get(sc.last(), k)
    } else {
        lookup(sc.drop_last(), k)
    }
}

/// Index of the innermost scope that binds `k`, or -1 when none does.
pub open spec fn defining_scope<V>(sc: Seq<Seq<(String, V)>>, k: Seq<char>) -> int
    decreases sc.len(),
{
    if sc.len() == 0 {
        -1
    } else if scope_get(sc.last(), k) is Some {
        sc.len() - 1
    } else {
        defining_scope(sc.drop_last(), k)
    }
}

/// Whether no name occurs twice in a list of bindings.
pub open spec fn distinct_names<V>(s: Seq<(String, V)>) -> bool {
    forall|i: int, j: int| 0 <= i < j < s.len() ==> s[i].0@ != s[j].0@
}

proof fn lemma_scope_get_push<V>(s: Seq<(String, V)>, e: (String, V), k: Seq<char>)
    ensures
        scope_get(s.push(e), k) == (if e.0@ == k {
            Some(e.1)
        } else {
            scope_get(s, k)
        }),
{
    assert(s.push(e).drop_last() =~= s);
}

/// Replacing an entry by one with the same name leaves every other name's
/// binding alone; if no later entry has that name, the name now gets the
/// new value.
proof fn lemma_scope_get_update<V>(s: Seq<(String, V)>, j: int, e: (String, V), k: Seq<char>)
    requires
        0 <= j < s.len(),
        s[j].0@ == e.0@,
    ensures
        k != e.0@ ==> scope_get(s.update(j, e), k) == scope_get(s, k),
        (k == e.0@ && forall|i: int| j < i < s.len() ==> s[i].0@ != k) ==> scope_get(
            s.update(j, e),
            k,
        ) == Some(e.1),
    decreases s.len(),
{
    let t = s.update(j, e);
    if j == s.len() - 1 {
        assert(t.drop_last() =~= s.drop_last());
    } else {
        assert(t.drop_last() =~= s.drop_last().update(j, e));
        lemma_scope_get_update(s.drop_last(), j, e, k);
    }
}

/// `scope_get` over a prefix: when none of the entries at `n` and after
/// carries `k`, the prefix gives the same binding as the whole.
proof fn lemma_scope_get_take<V>(s: Seq<(String, V)>, n: int, k: Seq<char>)
    requires
        0 <= n < s.len(),
        forall|i: int| n < i < s.len() ==> s[i].0@ != k,
    ensures
        scope_get(s.take(n + 1), k) == scope_get(s, k),
    decreases s.len() - n,
{
    if n + 1 == s.len() {
        assert(s.take(n + 1) =~= s);
    } else {
        lemma_scope_get_take(s, n + 1, k);
        assert(s.take(n + 2).drop_last() =~= s.take(n + 1));
    }
}

proof fn lemma_scope_get_absent<V>(s: Seq<(String, V)>, k: Seq<char>)
    requires
        forall|q: int| 0 <= q < s.len() ==> s[q].0@ != k,
    ensures
        scope_get(s, k) is None,
    decreases s.len(),
{
    if s.len() > 0 {
        lemma_scope_get_absent(s.drop_last(), k);
    }
}

proof fn lemma_lookup_take<V>(sc: Seq<Seq<(String, V)>>, n: int, k: Seq<char>)
    requires
        0 <= n < sc.len(),
        forall|i: int| n < i < sc.len() ==> scope_get(#[trigger] sc[i], k) is None,
    ensures
        lookup(sc.take(n + 1), k) == lookup(sc, k),
        defining_scope(sc.take(n + 1), k) == defining_scope(sc, k),
    decreases sc.len() - n,
{
    if n + 1 == sc.len() {
        assert(sc.take(n + 1) =~= sc);
    } else {
        lemma_lookup_take(sc, n + 1, k);
        assert(sc.take(n + 2).drop_last() =~= sc.take(n + 1));
    }
}

proof fn lemma_defining_scope<V>(sc: Seq<Seq<(String, V)>>, k: Seq<char>)
    ensures
        -1 <= defining_scope(sc, k) < sc.len(),
        defining_scope(sc, k) == -1 <==> lookup(sc, k) is None,
        defining_scope(sc, k) >= 0 ==> lookup(sc, k) == scope_get(sc[defining_scope(sc, k)], k),
        forall|i: int|
            defining_scope(sc, k) < i < sc.len() ==> scope_get(#[trigger] sc[i], k) is None,
    decreases sc.len(),
{
    if sc.len() > 0 {
        lemma_defining_scope(sc.drop_last(), k);
        assert forall|i: int|
            defining_scope(sc, k) < i < sc.len() implies scope_get(#[trigger] sc[i], k) is None by {
            if i < sc.len() - 1 {
                assert(sc.drop_last()[i] == sc[i]);
            }
        }
    }
}

/// Changing one scope changes lookups only through that scope: a name bound
/// in a scope further in is unaffected, and so is a name whose binding in
/// the changed scope stays the same.
proof fn lemma_lookup_update<V>(
    sc: Seq<Seq<(String, V)>>,
    i: int,
    t: Seq<(String, V)>,
    k: Seq<char>,
)
    requires
        0 <= i < sc.len(),
        scope_get(t, k) == scope_get(sc[i], k),
    ensures
        lookup(sc.update(i, t), k) == lookup(sc, k),
    decreases sc.len(),
{
    let u = sc.update(i, t);
    if i == sc.len() - 1 {
        assert(u.drop_last() =~= sc.drop_last());
    } else {
        assert(u.drop_last() =~= sc.drop_last().update(i, t));
        lemma_lookup_update(sc.drop_last(), i, t, k);
    }
}

/// Binding `k` in scope `i`, where no scope further in binds it, makes
/// `k` look up to the new value.
proof fn lemma_lookup_update_defining<V>(
    sc: Seq<Seq<(String, V)>>,
    i: int,
    t: Seq<(String, V)>,
    k: Seq<char>,
    v: V,
)
    requires
        0 <= i < sc.len(),
        scope_get(t, k) == Some(v),
        forall|j: int| i < j < sc.len() ==> scope_get(#[trigger] sc[j], k) is None,
    ensures
        lookup(sc.update(i, t), k) == Some(v),
        defining_scope(sc.update(i, t), k) == i,
    decreases sc.len(),
{
    let u = sc.update(i, t);
    if i == sc.len() - 1 {
    } else {
        assert(u.drop_last() =~= sc.drop_last().update(i, t));
        assert(scope_get(sc[sc.len() - 1], k) is None);
        lemma_lookup_update_defining(sc.drop_last(), i, t, k, v);
    }
}

/// Bind `name` to `value` in a list of bindings: the last entry with that
/// name is replaced, or the binding is appended when there is none.
pub fn bind<V>(list: &mut Vec<(String, V)>, name: String, value: V)
    ensures
        forall|k: Seq<char>|
            #[trigger] scope_get(final(list)@, k) == (if k == name@ {
                Some(value)
            } else {
                scope_get(old(list)@, k)
            }),
        distinct_names(old(list)@) ==> distinct_names(final(list)@),
{
    let mut j = list.len();
    let mut found = false;
    while j > 0
        invariant_except_break
            !found,
            forall|i: int| j <= i < list@.len() ==> list@[i].0@ != name@,
        invariant
            j <= list@.len(),
            list@ == old(list)@,
        ensures
            j <= list@.len(),
            list@ == old(list)@,
            found ==> j > 0 && list@[j - 1].0@ == name@,
            !found ==> j == 0,
            forall|i: int| j <= i < list@.len() ==> list@[i].0@ != name@,
        decreases j,
    {
        if list[j - 1].0 == name {
            found = true;
            break;
        }
        j = j - 1;
    }
    let ghost old_list = list@;
    let ghost e = (name, value);
    if found {
        let idx = j - 1;
        assert forall|k: Seq<char>|
            #[trigger] scope_get(old_list.update(idx as int, e), k) == (if k == e.0@ {
                Some(e.1)
            } else {
                scope_get(old_list, k)
            }) by {
            lemma_scope_get_update(old_list, idx as int, e, k);
        }
        list.set(idx, (name, value));
        assert(list@ =~= old_list.update(idx as int, e));
        proof {
            if distinct_names(old_list) {
                assert forall|a: int, b: int| 0 <= a < b < list@.len() implies list@[a].0@
                    != list@[b].0@ by {
                    assert(old_list[a].0@ != old_list[b].0@);
                }
            }
        }
    } else {
        assert forall|k: Seq<char>|
            #[trigger] scope_get(old_list.push(e), k) == (if k == e.0@ {
                Some(e.1)
            } else {
                scope_get(old_list, k)
            }) by {
            lemma_scope_get_push(old_list, e, k);
        }
        list.push((name, value));
        assert(list@ =~= old_list.push(e));
        proof {
            if distinct_names(old_list) {
                assert forall|a: int, b: int| 0 <= a < b < list@.len() implies list@[a].0@
                    != list@[b].0@ by {
                    if b < old_list.len() {
                        assert(old_list[a].0@ != old_list[b].0@);
                    }
                }
            }
        }
    }
}

/// The position of the entry that gives `key` its binding in a list of
/// bindings: the last entry with that name.
pub fn find_binding<V>(list: &Vec<(String, V)>, key: &String) -> (r: Option<usize>)
    ensures
        match r {
            Some(i) => i < list@.len() && list@[i as int].0@ == key@ && scope_get(list@, key@)
                == Some(list@[i as int].1),
            None => scope_get(list@, key@) is None,
        },
{
    let mut j = list.len();
    assert(list@.take(j as int) =~= list@);
    while j > 0
        invariant
            j <= list@.len(),
            scope_get(list@.take(j as int), key@) == scope_get(list@, key@),
        decreases j,
    {
        assert(list@.take(j as int).drop_last() =~= list@.take(j - 1));
        if list[j - 1].0 == *key {
            return Some(j - 1);
        }
        j = j - 1;
    }
    assert(list@.take(0) =~= Seq::<(String, V)>::empty());
    None
}

/// A stack of local-variable scopes.
///
/// `push_scope()` opens a new scope; `pop_scope()` discards every binding that
/// was introduced in that scope, restoring the previous state.  Lookups walk
/// from the innermost scope outward so inner bindings shadow outer ones.
pub struct ScopedLocals<V: Clone> {
    scopes: Vec<Vec<(String, V)>>,
}

impl<V: Clone> ScopedLocals<V> {
    /// The scopes, outermost first, each as its list of bindings.
    pub closed spec fn scopes(&self) -> Seq<Seq<(String, V)>> {
        self.scopes@.map_values(|s: Vec<(String, V)>| s@)
    }

    /// The number of open scopes.
    pub open spec fn depth(&self) -> nat {
        self.scopes().len()
    }

    /// The binding visible for a name.
    pub open spec fn binding(&self, k: Seq<char>) -> Option<V> {
        lookup(self.scopes(), k)
    }

    #[verifier::type_invariant]
    closed spec fn inv(&self) -> bool {
        self.scopes@.len() >= 1
    }

    /// Move the scopes out, leaving a single empty scope in their place.
    fn take_scopes(&mut self) -> (sc: Vec<Vec<(String, V)>>)
        ensures
            sc@ == old(self).scopes@,
            sc@.map_values(|s: Vec<(String, V)>| s@) == old(self).scopes(),
    {
        let mut sc: Vec<Vec<(String, V)>> = Vec::new();
        sc.push(Vec::new());
        std::mem::swap(&mut self.scopes, &mut sc);
        sc
    }

    pub fn new() -> (s: Self)
        ensures
            s.scopes() == seq![Seq::<(String, V)>::empty()],
    {
        let mut scopes: Vec<Vec<(String, V)>> = Vec::new();
        scopes.push(Vec::new());
        let s = Self { scopes };
        assert(s.scopes() =~= seq![Seq::<(String, V)>::empty()]);
        s
    }

    /// Open a new (empty) scope.
    pub fn push_scope(&mut self)
        ensures
            final(self).scopes() == old(self).scopes().push(Seq::empty()),
            final(self).depth() > 1,
            forall|k: Seq<char>| #[trigger] final(self).binding(k) == old(self).binding(k),
    {
        proof {
            use_type_invariant(&*self);
        }
        let mut sc = self.take_scopes();
        sc.push(Vec::new());
        self.scopes = sc;
        assert(self.scopes() =~= old(self).scopes().push(Seq::empty()));
        assert forall|k: Seq<char>| #[trigger] self.binding(k) == old(self).binding(k) by {
            assert(self.scopes().drop_last() =~= old(self).scopes());
        }
    }

    /// Close the innermost scope, discarding its bindings.
    pub fn pop_scope(&mut self)
        requires
            old(self).depth() > 1,
        ensures
            final(self).scopes() == old(self).scopes().drop_last(),
    {
        let mut sc = self.take_scopes();
        sc.pop();
        self.scopes = sc;
        assert(self.scopes() =~= old(self).scopes().drop_last());
    }

    /// Insert a binding into the current (innermost) scope.
    pub fn insert(&mut self, name: String, value: V)
        ensures
            final(self).depth() == old(self).depth(),
            final(self).scopes().drop_last() == old(self).scopes().drop_last(),
            forall|k: Seq<char>|
                #[trigger] scope_get(final(self).scopes().last(), k) == (if k == name@ {
                    Some(value)
                } else {
                    scope_get(old(self).scopes().last(), k)
                }),
            final(self).binding(name@) == Some(value),
            forall|k: Seq<char>|
                k != name@ ==> #[trigger] final(self).binding(k) == old(self).binding(k),
    {
        proof {
            use_type_invariant(&*self);
        }
        let ghost old_sc = self.scopes();
        let mut sc = self.take_scopes();
        let last = sc.len() - 1;
        let mut top: Vec<(String, V)> = Vec::new();
        sc.set_and_swap(last, &mut top);
        assert(top@ == old_sc[last as int]);
        let ghost name_view = name@;
        bind(&mut top, name, value);
        sc.set(last, top);
        self.scopes = sc;
        assert(self.scopes() =~= old_sc.update(last as int, top@));
        assert(self.scopes().drop_last() =~= old_sc.drop_last());
        assert(lookup(self.scopes(), name_view) == Some(value));
        assert forall|k: Seq<char>| k != name_view implies #[trigger] self.binding(k) == lookup(
            old_sc,
            k,
        ) by {
            lemma_lookup_update(old_sc, last as int, top@, k);
        }
    }

    /// Look up a name, searching from the innermost scope outward.
    pub fn get(&self, name: &str) -> (r: Option<&V>)
        ensures
            match r {
                Some(v) => self.binding(name@) == Some(*v),
                None => self.binding(name@) is None,
            },
    {
        let key = String::from_str(name);
        let ghost sc = self.scopes();
        let mut i = self.scopes.len();
        while i > 0
            invariant
                i <= self.scopes@.len(),
                sc == self.scopes(),
                key@ == name@,
                forall|m: int| i <= m < sc.len() ==> scope_get(#[trigger] sc[m], name@) is None,
            decreases i,
        {
            let scope = &self.scopes[i - 1];
            assert(scope@ == sc[i - 1]);
            let mut j = scope.len();
            assert(scope@.take(j as int) =~= scope@);
            while j > 0
                invariant
                    0 < i <= sc.len(),
                    sc == self.scopes(),
                    forall|m: int| i <= m < sc.len() ==> scope_get(#[trigger] sc[m], name@) is None,
                    j <= scope@.len(),
                    scope@ == sc[i - 1],
                    key@ == name@,
                    scope_get(scope@.take(j as int), name@) == scope_get(scope@, name@),
                decreases j,
            {
                assert(scope@.take(j as int).drop_last() =~= scope@.take(j - 1));
                if scope[j - 1].0 == key {
                    proof {
                        lemma_lookup_take(sc, i - 1, name@);
                        assert(sc.take(i as int).drop_last() =~= sc.take(i - 1));
                        assert(sc.take(i as int).last() == sc[i - 1]);
                    }
                    return Some(&scope[j - 1].1);
                }
                j = j - 1;
            }
            assert(scope@.take(0) =~= Seq::<(String, V)>::empty());
            i = i - 1;
        }
        proof {
            lemma_defining_scope(sc, name@);
        }
        None
    }

    /// Update an existing binding in the scope where it was originally defined.
    /// Returns `true` if the binding was found and updated, `false` otherwise.
    pub fn update(&mut self, name: &str, value: V) -> (found: bool)
        ensures
            found == (old(self).binding(name@) is Some),
            final(self).depth() == old(self).depth(),
            !found ==> final(self).scopes() == old(self).scopes(),
            found ==> final(self).binding(name@) == Some(value),
            found ==> defining_scope(final(self).scopes(), name@) == defining_scope(
                old(self).scopes(),
                name@,
            ),
            forall|k: Seq<char>|
                k != name@ ==> #[trigger] final(self).binding(k) == old(self).binding(k),
            forall|j: int|
                0 <= j < old(self).depth() && j != defining_scope(old(self).scopes(), name@)
                    ==> #[trigger] final(self).scopes()[j] == old(self).scopes()[j],
    {
        proof {
            use_type_invariant(&*self);
            lemma_defining_scope(self.scopes(), name@);
        }
        let ghost old_sc = self.scopes();
        let key = String::from_str(name);
        let mut i = self.scopes.len();
        while i > 0
            invariant_except_break
                forall|m: int| i <= m < old_sc.len() ==> scope_get(#[trigger] old_sc[m], name@) is None,
            invariant
                i <= self.scopes@.len(),
                old_sc == self.scopes(),
                key@ == name@,
            ensures
                i <= self.scopes@.len(),
                old_sc == self.scopes(),
                key@ == name@,
                forall|m: int| i <= m < old_sc.len() ==> scope_get(#[trigger] old_sc[m], name@) is None,
                i > 0 ==> scope_get(old_sc[i - 1], name@) is Some,
            decreases i,
        {
            let scope = &self.scopes[i - 1];
            let mut j = scope.len();
            let mut hit = false;
            while j > 0
                invariant_except_break
                    !hit,
                    forall|q: int| j <= q < scope@.len() ==> scope@[q].0@ != name@,
                invariant
                    j <= scope@.len(),
                    key@ == name@,
                ensures
                    j <= scope@.len(),
                    forall|q: int| j <= q < scope@.len() ==> scope@[q].0@ != name@,
                    hit ==> j > 0 && scope@[j - 1].0@ == name@,
                    !hit ==> forall|q: int| 0 <= q < scope@.len() ==> scope@[q].0@ != name@,
                decreases j,
            {
                if scope[j - 1].0 == key {
                    hit = true;
                    break;
                }
                j = j - 1;
            }
            proof {
                if hit {
                    lemma_scope_get_take(scope@, j - 1, name@);
                    assert(scope@.take(j as int).drop_last() =~= scope@.take(j - 1));
                } else {
                    lemma_scope_get_absent(scope@, name@);
                }
            }
            if hit {
                break;
            }
            i = i - 1;
        }
        if i == 0 {
            proof {
                lemma_lookup_take(old_sc, 0, name@);
                assert(old_sc.take(1).drop_last() =~= Seq::<Seq<(String, V)>>::empty());
            }
            return false;
        }
        let idx = i - 1;
        proof {
            lemma_lookup_take(old_sc, idx as int, name@);
            assert(old_sc.take(i as int).drop_last() =~= old_sc.take(idx as int));
            assert(old_sc.take(i as int).last() == old_sc[idx as int]);
            assert(defining_scope(old_sc, name@) == idx);
        }
        let mut sc = self.take_scopes();
        let mut target: Vec<(String, V)> = Vec::new();
        sc.set_and_swap(idx, &mut target);
        assert(target@ == old_sc[idx as int]);
        bind(&mut target, key, value);
        sc.set(idx, target);
        self.scopes = sc;
        proof {
            assert(self.scopes() =~= old_sc.update(idx as int, target@));
            lemma_lookup_update_defining(old_sc, idx as int, target@, name@, value);
            assert forall|k: Seq<char>| k != name@ implies #[trigger] self.binding(k) == lookup(
                old_sc,
                k,
            ) by {
                lemma_lookup_update(old_sc, idx as int, target@, k);
            }
        }
        true
    }

    /// Snapshot all visible bindings into a flat list, one entry per name.
    /// Used by the lowerer's loop copyback which needs a flat view.
    pub fn flatten(&self) -> (flat: Vec<(String, V)>)
        ensures
            distinct_names(flat@),
            forall|k: Seq<char>|
                (#[trigger] scope_get(flat@, k) is Some) == (self.binding(k) is Some),
            forall|k: Seq<char>|
                #[trigger] scope_get(flat@, k) is Some ==> cloned(
                    self.binding(k).unwrap(),
                    scope_get(flat@, k).unwrap(),
                ),
    {
        let ghost sc = self.scopes();
        let mut flat: Vec<(String, V)> = Vec::new();
        let mut i: usize = 0;
        while i < self.scopes.len()
            invariant
                i <= self.scopes@.len(),
                sc == self.scopes(),
                distinct_names(flat@),
                forall|k: Seq<char>|
                    (#[trigger] scope_get(flat@, k) is Some) == (lookup(sc.take(i as int), k) is Some),
                forall|k: Seq<char>|
                    #[trigger] scope_get(flat@, k) is Some ==> cloned(
                        lookup(sc.take(i as int), k).unwrap(),
                        scope_get(flat@, k).unwrap(),
                    ),
            decreases self.scopes@.len() - i,
        {
            let scope = &self.scopes[i];
            assert(scope@ == sc[i as int]);
            let ghost before = flat@;
            let mut j: usize = 0;
            assert(scope@.take(0) =~= Seq::<(String, V)>::empty());
            while j < scope.len()
                invariant
                    i < sc.len(),
                    sc == self.scopes(),
                    forall|k: Seq<char>|
                        (#[trigger] scope_get(before, k) is Some) == (lookup(sc.take(i as int), k) is Some),
                    forall|k: Seq<char>|
                        #[trigger] scope_get(before, k) is Some ==> cloned(
                            lookup(sc.take(i as int), k).unwrap(),
                            scope_get(before, k).unwrap(),
                        ),
                    j <= scope@.len(),
                    scope@ == sc[i as int],
                    distinct_names(flat@),
                    forall|k: Seq<char>|
                        #[trigger] scope_get(scope@.take(j as int), k) is None ==> scope_get(
                            flat@,
                            k,
                        ) == scope_get(before, k),
                    forall|k: Seq<char>|
                        #[trigger] scope_get(scope@.take(j as int), k) is Some ==> scope_get(
                            flat@,
                            k,
                        ) is Some && cloned(
                            scope_get(scope@.take(j as int), k).unwrap(),
                            scope_get(flat@, k).unwrap(),
                        ),
                decreases scope@.len() - j,
            {
                let v = scope[j].1.clone();
                let n = scope[j].0.clone();
                assert(scope@.take(j + 1) =~= scope@.take(j as int).push(scope@[j as int]));
                proof {
                    assert forall|k: Seq<char>|
                        #[trigger] scope_get(scope@.take(j + 1), k) == (if k == n@ {
                            Some(scope@[j as int].1)
                        } else {
                            scope_get(scope@.take(j as int), k)
                        }) by {
                        lemma_scope_get_push(scope@.take(j as int), scope@[j as int], k);
                    }
                }
                bind(&mut flat, n, v);
                j = j + 1;
            }
            assert(scope@.take(scope@.len() as int) =~= scope@);
            assert(sc.take(i + 1).drop_last() =~= sc.take(i as int));
            assert(sc.take(i + 1).last() == sc[i as int]);
            assert forall|k: Seq<char>|
                (#[trigger] scope_get(flat@, k) is Some) == (lookup(sc.take(i + 1), k) is Some)
                && (scope_get(flat@, k) is Some ==> cloned(
                    lookup(sc.take(i + 1), k).unwrap(),
                    scope_get(flat@, k).unwrap(),
                )) by {
                assert(scope_get(scope@.take(scope@.len() as int), k) == scope_get(sc[i as int], k));
            }
            i = i + 1;
        }
        assert(sc.take(sc.len() as int) =~= sc);
        flat
    }

    /// The bindings of the innermost scope, in the order they were made.
    pub fn current_scope_entries(&self) -> (entries: Vec<(String, V)>)
        ensures
            entries@.len() == self.scopes().last().len(),
            forall|i: int|
                0 <= i < entries@.len() ==> (#[trigger] entries@[i]).0@ == self.scopes().last()[i].0@
                    && cloned(self.scopes().last()[i].1, entries@[i].1),
    {
        proof {
            use_type_invariant(self);
        }
        let top = &self.scopes[self.scopes.len() - 1];
        assert(top@ == self.scopes().last());
        let mut entries: Vec<(String, V)> = Vec::new();
        let mut i: usize = 0;
        while i < top.len()
            invariant
                i <= top@.len(),
                top@ == self.scopes().last(),
                entries@.len() == i,
                forall|j: int|
                    0 <= j < i ==> (#[trigger] entries@[j]).0@ == top@[j].0@ && cloned(
                        top@[j].1,
                        entries@[j].1,
                    ),
            decreases top@.len() - i,
        {
            let n = top[i].0.clone();
            let v = top[i].1.clone();
            entries.push((n, v));
            i = i + 1;
        }
        entries
    }
}

/// Closing a scope discards exactly what was bound in it: whatever the
/// innermost scope holds, the stack and every lookup are as they were before
/// it was opened.
pub proof fn law_pop_restores<V>(sc: Seq<Seq<(String, V)>>, top: Seq<(String, V)>, k: Seq<char>)
    ensures
        sc.push(top).drop_last() == sc,
        lookup(sc.push(top).drop_last(), k) == lookup(sc, k),
{
    assert(sc.push(top).drop_last() =~= sc);
}

/// Whether `b` is `a` after inserting bindings into its innermost scope
/// only, as `insert` does: the outer scopes stay.
pub open spec fn inner_only<V: Clone>(a: ScopedLocals<V>, b: ScopedLocals<V>) -> bool {
    &&& b.depth() == a.depth()
    &&& b.scopes().drop_last() == a.scopes().drop_last()
}

/// Opening a scope, binding any names in it (each step inserting into the
/// innermost scope only) and closing it again gives back the scopes, and so
/// every lookup, from before it was opened:
/// `trace[0]` is the state right after `push_scope` on `s0`, each later
/// state comes from the one before by an insert, and closing the last one
/// drops its innermost scope.
pub proof fn law_pop_after_inserts<V: Clone>(s0: ScopedLocals<V>, trace: Seq<ScopedLocals<V>>, k: Seq<char>)
    requires
        trace.len() > 0,
        trace[0].scopes() == s0.scopes().push(Seq::empty()),
        forall|i: int| 0 <= i < trace.len() - 1 ==> inner_only(#[trigger] trace[i], trace[i + 1]),
    ensures
        trace.last().scopes().drop_last() == s0.scopes(),
        lookup(trace.last().scopes().drop_last(), k) == s0.binding(k),
    decreases trace.len(),
{
    if trace.len() == 1 {
        assert(trace[0].scopes().drop_last() =~= s0.scopes());
    } else {
        let t = trace.drop_last();
        assert forall|i: int| 0 <= i < t.len() - 1 implies inner_only(#[trigger] t[i], t[i + 1]) by {
            assert(t[i] == trace[i] && t[i + 1] == trace[i + 1]);
        }
        law_pop_after_inserts(s0, t, k);
        assert(inner_only(trace[trace.len() - 2], trace[trace.len() - 1]));
    }
}

/// An inner binding shadows outer ones; a name the inner scope does not bind
/// is looked up outside it.
pub proof fn law_inner_shadows<V>(sc: Seq<Seq<(String, V)>>, top: Seq<(String, V)>, k: Seq<char>)
    ensures
        scope_get(top, k) is Some ==> lookup(sc.push(top), k) == scope_get(top, k),
        scope_get(top, k) is None ==> lookup(sc.push(top), k) == lookup(sc, k),
{
    assert(sc.push(top).drop_last() =~= sc);
}

} // verus!
