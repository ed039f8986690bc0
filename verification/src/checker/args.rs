use vstd::prelude::*;

verus! {

/// An optional name as a sequence of characters.
pub open spec fn name_view(o: Option<String>) -> Option<Seq<char>> {
    match o {
        Some(s) => Some(s@),
        None => None,
    }
}

/// Index of the first named argument, or the number of arguments when
/// every argument is positional.
pub open spec fn first_named(arg_names: Seq<Option<Seq<char>>>) -> int
    decreases arg_names.len(),
{
    if arg_names.len() == 0 {
        0
    } else if first_named(arg_names.drop_last()) < arg_names.len() - 1 {
        first_named(arg_names.drop_last())
    } else if arg_names.last() is Some {
        arg_names.len() - 1
    } else {
        arg_names.len() as int
    }
}

/// Index of the first parameter with the given name.
pub open spec fn first_param_named(params: Seq<Seq<char>>, name: Seq<char>) -> Option<int>
    decreases params.len(),
{
    if params.len() == 0 {
        None
    } else if first_param_named(params.drop_last(), name) is Some {
        first_param_named(params.drop_last(), name)
    } else if params.last() == name {
        Some(params.len() - 1)
    } else {
        None
    }
}

/// Whether an argument before `a` was assigned to parameter `p`.
pub open spec fn filled_before(slots: Seq<Option<usize>>, a: int, p: int) -> bool {
    exists|b: int| 0 <= b < a && #[trigger] slots[b] == Some(p as usize)
}

/// How the arguments of a call are assigned to the parameters.
///
/// Leading positional arguments fill the parameters in order.  After the
/// first named argument, a named argument fills the first parameter of that
/// name, and a positional argument fills the first parameter at or after the
/// first named argument's position that no earlier argument filled.
pub struct ArgMatch {
    /// For each argument, the parameter it fills, if any.
    pub slots: Vec<Option<usize>>,
    /// Set when there are more leading positional arguments than parameters:
    /// the index of the first argument with no parameter left.  Matching
    /// stops there.
    pub overflow_at: Option<usize>,
    /// The parameters without an argument and without a default, in order.
    pub missing: Vec<usize>,
}

/// Whether `p` is the parameter a positional argument at `a`, coming after
/// the first named argument at `k`, fills.
pub open spec fn next_free(slots: Seq<Option<usize>>, a: int, k: int, n: int, p: int) -> bool {
    &&& k <= p < n
    &&& !filled_before(slots, a, p)
    &&& forall|q: int| k <= q < p ==> filled_before(slots, a, q)
}

/// What a correct matching of the arguments to the parameters is.
pub open spec fn is_arg_match(
    params: Seq<Seq<char>>,
    defaults: Seq<bool>,
    arg_names: Seq<Option<Seq<char>>>,
    m: ArgMatch,
) -> bool {
    let n = params.len() as int;
    let k = first_named(arg_names);
    let slots = m.slots@;
    &&& slots.len() == arg_names.len()
    &&& if k > n {
        &&& m.overflow_at == Some(n as usize)
        &&& forall|a: int| 0 <= a < n ==> slots[a] == Some(a as usize)
        &&& m.missing@.len() == 0
    } else {
        &&& m.overflow_at is None
        &&& forall|a: int| 0 <= a < k ==> slots[a] == Some(a as usize)
        &&& forall|a: int|
            k <= a < arg_names.len() && #[trigger] arg_names[a] is Some ==> match first_param_named(
                params,
                arg_names[a].unwrap(),
            ) {
                Some(p) => slots[a] == Some(p as usize),
                None => slots[a] is None,
            }
        &&& forall|a: int|
            k <= a < arg_names.len() && #[trigger] arg_names[a] is None ==> match slots[a] {
                Some(p) => next_free(slots, a, k, n, p as int),
                None => forall|q: int| k <= q < n ==> filled_before(slots, a, q),
            }
        &&& forall|i: int|
            0 <= i < m.missing@.len() ==> {
                let p = #[trigger] m.missing@[i] as int;
                0 <= p < n && !defaults[p] && !filled_before(slots, arg_names.len() as int, p)
            }
        &&& forall|p: int|
            0 <= p < n && !defaults[p] && !filled_before(slots, arg_names.len() as int, p) ==> (
            exists|i: int| 0 <= i < m.missing@.len() && #[trigger] m.missing@[i] == p as usize)
        &&& forall|i: int, j: int|
            0 <= i < j < m.missing@.len() ==> #[trigger] m.missing@[i] < #[trigger] m.missing@[j]
    }
}

proof fn lemma_first_named_prefix(arg_names: Seq<Option<Seq<char>>>, i: int)
    requires
        0 <= i <= arg_names.len(),
        forall|j: int| 0 <= j < i ==> arg_names[j] is None,
    ensures
        first_named(arg_names) >= i,
        i < arg_names.len() && arg_names[i] is Some ==> first_named(arg_names) == i,
        i == arg_names.len() ==> first_named(arg_names) == i,
    decreases arg_names.len(),
{
    if arg_names.len() > 0 {
        let d = arg_names.drop_last();
        if i < arg_names.len() {
            lemma_first_named_prefix(d, i);
        } else {
            lemma_first_named_prefix(d, i - 1);
        }
    }
}

proof fn lemma_first_named_bound(arg_names: Seq<Option<Seq<char>>>)
    ensures
        0 <= first_named(arg_names) <= arg_names.len(),
        first_named(arg_names) < arg_names.len() ==> arg_names[first_named(arg_names)] is Some,
        forall|j: int| 0 <= j < first_named(arg_names) ==> arg_names[j] is None,
    decreases arg_names.len(),
{
    if arg_names.len() > 0 {
        lemma_first_named_bound(arg_names.drop_last());
        let d = arg_names.drop_last();
        assert forall|j: int| 0 <= j < first_named(arg_names) implies arg_names[j] is None by {
            if j < d.len() {
                assert(d[j] == arg_names[j]);
            }
        }
    }
}

pub(crate) proof fn lemma_first_param_named(params: Seq<Seq<char>>, name: Seq<char>)
    ensures
        match first_param_named(params, name) {
            Some(p) => 0 <= p < params.len() && params[p] == name && forall|q: int|
                0 <= q < p ==> params[q] != name,
            None => forall|q: int| 0 <= q < params.len() ==> params[q] != name,
        },
    decreases params.len(),
{
    if params.len() > 0 {
        let d = params.drop_last();
        lemma_first_param_named(d, name);
        assert forall|q: int| 0 <= q < d.len() implies d[q] == params[q] by {}
    }
}

proof fn lemma_filled_before_push(s: Seq<Option<usize>>, x: Option<usize>, b: int, p: int)
    requires
        0 <= b <= s.len(),
    ensures
        filled_before(s.push(x), b, p) == filled_before(s, b, p),
        filled_before(s.push(x), s.len() + 1int, p) == (filled_before(s, s.len() as int, p) || x
            == Some(p as usize)),
{
    let t = s.push(x);
    if filled_before(s, b, p) {
        let w = choose|w: int| 0 <= w < b && #[trigger] s[w] == Some(p as usize);
        assert(t[w] == s[w]);
    }
    if filled_before(t, b, p) {
        let w = choose|w: int| 0 <= w < b && #[trigger] t[w] == Some(p as usize);
        assert(t[w] == s[w]);
    }
    if filled_before(s, s.len() as int, p) {
        let w = choose|w: int| 0 <= w < s.len() && #[trigger] s[w] == Some(p as usize);
        assert(t[w] == s[w]);
    }
    if x == Some(p as usize) {
        assert(t[s.len() as int] == x);
    }
    if filled_before(t, s.len() + 1int, p) {
        let w = choose|w: int| 0 <= w < s.len() + 1 && #[trigger] t[w] == Some(p as usize);
        if w < s.len() {
            assert(t[w] == s[w]);
        }
    }
}

/// The index of the first parameter named `name`.
fn find_param(params: &Vec<String>, name: &String) -> (r: Option<usize>)
    ensures
        match r {
            Some(p) => first_param_named(params@.map_values(|s: String| s@), name@) == Some(
                p as int,
            ),
            None => first_param_named(params@.map_values(|s: String| s@), name@) is None,
        },
{
    let ghost pv = params@.map_values(|s: String| s@);
    proof {
        lemma_first_param_named(pv, name@);
    }
    let mut i: usize = 0;
    while i < params.len()
        invariant
            i <= params@.len(),
            pv == params@.map_values(|s: String| s@),
            forall|q: int| 0 <= q < i ==> pv[q] != name@,
        decreases params@.len() - i,
    {
        assert(pv[i as int] == params@[i as int]@);
        if params[i] == *name {
            proof {
                lemma_first_param_named(pv, name@);
                let r = first_param_named(pv, name@);
                if r is Some {
                    let p = r.unwrap();
                    if p < i {
                        assert(pv[p] != name@);
                    }
                }
            }
            return Some(i);
        }
        i = i + 1;
    }
    proof {
        lemma_first_param_named(pv, name@);
    }
    None
}

/// The indices, in order, of the parameters that are neither filled nor
/// have a default.
fn unfilled_required(filled: &Vec<bool>, defaults: &Vec<bool>) -> (missing: Vec<usize>)
    requires
        filled@.len() == defaults@.len(),
    ensures
        forall|t: int|
            0 <= t < missing@.len() ==> {
                let p = #[trigger] missing@[t] as int;
                0 <= p < filled@.len() && !defaults@[p] && !filled@[p]
            },
        forall|p: int|
            0 <= p < filled@.len() && !defaults@[p] && !filled@[p] ==> (exists|t: int|
                0 <= t < missing@.len() && #[trigger] missing@[t] == p as usize),
        forall|t: int, u: int|
            0 <= t < u < missing@.len() ==> #[trigger] missing@[t] < #[trigger] missing@[u],
{
    let n = filled.len();
    let mut missing: Vec<usize> = Vec::new();
    let mut i: usize = 0;
    while i < n
        invariant
            i <= n,
            n == filled@.len(),
            defaults@.len() == n,
            forall|t: int|
                0 <= t < missing@.len() ==> {
                    let p = #[trigger] missing@[t] as int;
                    0 <= p < i && !defaults@[p] && !filled@[p]
                },
            forall|p: int|
                0 <= p < i && !defaults@[p] && !filled@[p] ==> (exists|t: int|
                    0 <= t < missing@.len() && #[trigger] missing@[t] == p as usize),
            forall|t: int, u: int|
                0 <= t < u < missing@.len() ==> #[trigger] missing@[t] < #[trigger] missing@[u],
        decreases n - i,
    {
        if !filled[i] && !defaults[i] {
            let ghost before = missing@;
            missing.push(i);
            proof {
                assert(missing@[before.len() as int] == i);
                assert forall|p: int|
                    0 <= p < i + 1 && !defaults@[p] && !filled@[p] implies (exists|t: int|
                        0 <= t < missing@.len() && #[trigger] missing@[t] == p as usize) by {
                    if p < i {
                        let t = choose|t: int|
                            0 <= t < before.len() && #[trigger] before[t] == p as usize;
                        assert(missing@[t] == before[t]);
                    }
                }
            }
        }
        i = i + 1;
    }
    missing
}

/// Assign the arguments of a call to the parameters.
pub fn match_call_args(
    params: &Vec<String>,
    defaults: &Vec<bool>,
    arg_names: &Vec<Option<String>>,
) -> (m: ArgMatch)
    requires
        defaults@.len() == params@.len(),
    ensures
        is_arg_match(
            params@.map_values(|s: String| s@),
            defaults@,
            arg_names@.map_values(|o: Option<String>| name_view(o)),
            m,
        ),
{
    let ghost pv = params@.map_values(|s: String| s@);
    let ghost av = arg_names@.map_values(|o: Option<String>| name_view(o));
    let n = params.len();
    let mut slots: Vec<Option<usize>> = Vec::new();
    let mut filled: Vec<bool> = Vec::new();
    let mut q: usize = 0;
    while q < n
        invariant
            q <= n,
            n == params@.len(),
            filled@.len() == q,
            forall|j: int| 0 <= j < q ==> !filled@[j],
        decreases n - q,
    {
        filled.push(false);
        q = q + 1;
    }
    // Leading positional arguments.
    let mut k: usize = 0;
    while k < arg_names.len() && arg_names[k].is_none()
        invariant
            k <= arg_names@.len(),
            av == arg_names@.map_values(|o: Option<String>| name_view(o)),
            forall|j: int| 0 <= j < k ==> av[j] is None,
        decreases arg_names@.len() - k,
    {
        k = k + 1;
    }
    proof {
        lemma_first_named_prefix(av, k as int);
        lemma_first_named_bound(av);
    }
    if k > n {
        let mut a: usize = 0;
        while a < arg_names.len()
            invariant
                a <= arg_names@.len(),
                slots@.len() == a,
                forall|j: int| 0 <= j < a && j < n ==> slots@[j] == Some(j as usize),
            decreases arg_names@.len() - a,
        {
            if a < n {
                slots.push(Some(a));
            } else {
                slots.push(None);
            }
            a = a + 1;
        }
        return ArgMatch { slots, overflow_at: Some(n), missing: Vec::new() };
    }
    // Leading positional arguments fill the parameters in order.

    let mut a: usize = 0;
    while a < k
        invariant
            a <= k <= n,
            n == params@.len(),
            slots@.len() == a,
            filled@.len() == n,
            forall|j: int| 0 <= j < a ==> slots@[j] == Some(j as usize),
            forall|j: int| 0 <= j < n ==> filled@[j] == (j < a),
        decreases k - a,
    {
        slots.push(Some(a));
        filled.set(a, true);
        a = a + 1;
    }
    assert forall|j: int| 0 <= j < n implies filled@[j] == filled_before(slots@, a as int, j) by {
        if j < a {
            assert(slots@[j] == Some(j as usize));
        }
    }
    // The rest: named arguments by name, positional ones into free slots.
    let mut pos: usize = k;
    while a < arg_names.len()
        invariant
            k <= a <= arg_names@.len(),
            k <= pos <= n,
            k as int == first_named(av),
            n == params@.len(),
            pv == params@.map_values(|s: String| s@),
            av == arg_names@.map_values(|o: Option<String>| name_view(o)),
            slots@.len() == a,
            filled@.len() == n,
            forall|j: int| 0 <= j < k ==> slots@[j] == Some(j as usize),
            forall|j: int| 0 <= j < n ==> filled@[j] == filled_before(slots@, a as int, j),
            forall|q: int| k <= q < pos ==> filled_before(slots@, a as int, q),
            forall|j: int| 0 <= j < a ==> match #[trigger] slots@[j] {
                Some(p) => p < n,
                None => true,
            },
            forall|b: int|
                k <= b < a && #[trigger] av[b] is Some ==> match first_param_named(
                    pv,
                    av[b].unwrap(),
                ) {
                    Some(p) => slots@[b] == Some(p as usize),
                    None => slots@[b] is None,
                },
            forall|b: int|
                k <= b < a && #[trigger] av[b] is None ==> match slots@[b] {
                    Some(p) => next_free(slots@, b, k as int, n as int, p as int),
                    None => forall|q: int| k <= q < n ==> filled_before(slots@, b, q),
                },
        decreases arg_names@.len() - a,
    {
        let ghost old_slots = slots@;
        let ghost old_pos = pos;
        assert(av[a as int] == name_view(arg_names@[a as int]));
        match &arg_names[a] {
            Some(name) => {
                let r = find_param(params, name);
                proof {
                    lemma_first_param_named(pv, name@);
                }
                match r {
                    Some(p) => {
                        slots.push(Some(p));
                        filled.set(p, true);
                    },
                    None => {
                        slots.push(None);
                    },
                }
            },
            None => {
                while pos < n && filled[pos]
                    invariant
                        k <= old_pos <= pos <= n,
                        filled@.len() == n,
                        slots@ == old_slots,
                        forall|j: int| 0 <= j < n ==> filled@[j] == filled_before(slots@, a as int, j),
                        forall|q: int| k <= q < pos ==> #[trigger] filled_before(slots@, a as int, q),
                    decreases n - pos,
                {
                    pos = pos + 1;
                }
                if pos < n {
                    slots.push(Some(pos));
                    filled.set(pos, true);
                    pos = pos + 1;
                } else {
                    slots.push(None);
                }
            },
        }
        proof {
            let x = slots@[a as int];
            assert(slots@ == old_slots.push(x));
            assert forall|b: int, p: int| 0 <= b <= a implies #[trigger] filled_before(slots@, b, p)
                == filled_before(old_slots, b, p) by {
                lemma_filled_before_push(old_slots, x, b, p);
            }
            assert forall|p: int| #[trigger] filled_before(slots@, a + 1, p) == (filled_before(
                old_slots,
                a as int,
                p,
            ) || x == Some(p as usize)) by {
                lemma_filled_before_push(old_slots, x, a as int, p);
            }
            assert forall|j: int| 0 <= j < n implies filled@[j] == filled_before(slots@, a + 1, j) by {}
            assert forall|q: int| k <= q < pos implies #[trigger] filled_before(slots@, a + 1, q) by {}
            assert forall|b: int|
                k <= b < a + 1 && #[trigger] av[b] is None implies match slots@[b] {
                    Some(p) => next_free(slots@, b, k as int, n as int, p as int),
                    None => forall|q: int| k <= q < n ==> filled_before(slots@, b, q),
                } by {
                if b < a {
                    assert(slots@[b] == old_slots[b]);
                }
            }
            assert forall|b: int|
                k <= b < a + 1 && #[trigger] av[b] is Some implies match first_param_named(
                    pv,
                    av[b].unwrap(),
                ) {
                    Some(p) => slots@[b] == Some(p as usize),
                    None => slots@[b] is None,
                } by {
                if b < a {
                    assert(slots@[b] == old_slots[b]);
                }
            }
        }
        a = a + 1;
    }
    // Required parameters that nothing filled.
    let missing = unfilled_required(&filled, defaults);
    proof {
        let m = ArgMatch { slots, overflow_at: None, missing };
        assert(pv =~= params@.map_values(|s: String| s@));
        assert(av =~= arg_names@.map_values(|o: Option<String>| name_view(o)));
        assert(a == arg_names@.len());
        assert(av.len() == arg_names@.len());
        assert forall|i: int| 0 <= i < m.missing@.len() implies ({
            let p = #[trigger] m.missing@[i] as int;
            0 <= p < pv.len() && !defaults@[p] && !filled_before(m.slots@, av.len() as int, p)
        }) by {}
        assert forall|p: int|
            0 <= p < pv.len() && !defaults@[p] && !filled_before(m.slots@, av.len() as int, p) implies (
            exists|i: int| 0 <= i < m.missing@.len() && #[trigger] m.missing@[i] == p as usize) by {
            assert(!filled@[p]);
            let t = choose|t: int| 0 <= t < missing@.len() && #[trigger] missing@[t] == p as usize;
            assert(m.missing@[t] == p as usize);
        }
        assert(m.slots@.len() == av.len());
        assert(!(first_named(av) > pv.len()));
        assert(forall|q: int| 0 <= q < first_named(av) ==> m.slots@[q] == Some(q as usize));
        assert(forall|t: int, u: int|
            0 <= t < u < m.missing@.len() ==> #[trigger] m.missing@[t] < #[trigger] m.missing@[u]);
        assert(forall|b: int|
            first_named(av) <= b < av.len() && #[trigger] av[b] is None ==> match m.slots@[b] {
                Some(p) => next_free(m.slots@, b, first_named(av), pv.len() as int, p as int),
                None => forall|q: int| first_named(av) <= q < pv.len() ==> filled_before(m.slots@, b, q),
            });
        assert(forall|b: int|
            first_named(av) <= b < av.len() && #[trigger] av[b] is Some ==> match first_param_named(
                pv,
                av[b].unwrap(),
            ) {
                Some(p) => m.slots@[b] == Some(p as usize),
                None => m.slots@[b] is None,
            });
        assert(is_arg_match(pv, defaults@, av, m));
    }
    ArgMatch { slots, overflow_at: None, missing }
}

} // verus!
