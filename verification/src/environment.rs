use vstd::prelude::*;

verus! {

/// One scope as seen by the specifications: its bindings in the order they were made.
pub type ScopeView<T> = Seq<(Seq<char>, T)>;

/// The bindings of a scope as the abstract list of (name, value) pairs.
pub open spec fn entries_view<T>(entries: Seq<(String, T)>) -> ScopeView<T> {
    entries.map_values(|e: (String, T)| (e.0@, e.1))
}

/// No name is bound twice in a scope.
pub open spec fn names_distinct<T>(s: ScopeView<T>) -> bool {
    forall|i: int, j: int| 0 <= i < j < s.len() ==> s[i].0 != s[j].0
}

/// The position of `name` in a scope, or -1 when it is not bound there.
pub open spec fn position<T>(s: ScopeView<T>, name: Seq<char>) -> int
    decreases s.len(),
{
    if s.len() == 0 {
        -1
    } else if s.last().0 == name {
        s.len() - 1
    } else {
        position(s.drop_last(), name)
    }
}

/// The value bound to `name` in one scope.
pub open spec fn scope_get<T>(s: ScopeView<T>, name: Seq<char>) -> Option<T> {
    let p = position(s, name);
    if p >= 0 {
        Some(s[p].1)
    } else {
        None
    }
}

/// Binds `name` in one scope: a binding that exists gets the new value, otherwise one is added.
pub open spec fn scope_put<T>(s: ScopeView<T>, name: Seq<char>, val: T) -> ScopeView<T> {
    let p = position(s, name);
    if p >= 0 {
        s.update(p, (name, val))
    } else {
        s.push((name, val))
    }
}

/// The scope made from a list of pairs, a later pair for the same name winning.
pub open spec fn scope_from_pairs<T>(pairs: Seq<(Seq<char>, T)>) -> ScopeView<T>
    decreases pairs.len(),
{
    if pairs.len() == 0 {
        Seq::empty()
    } else {
        scope_put(scope_from_pairs(pairs.drop_last()), pairs.last().0, pairs.last().1)
    }
}

/// The value of `name` as seen from the innermost scope outwards.
pub open spec fn lookup<T>(scopes: Seq<ScopeView<T>>, name: Seq<char>) -> Option<T>
    decreases scopes.len(),
{
    if scopes.len() == 0 {
        None
    } else if position(scopes.last(), name) >= 0 {
        scope_get(scopes.last(), name)
    } else {
        lookup(scopes.drop_last(), name)
    }
}

/// The scopes after giving `name` a new value in the innermost scope that binds it.
pub open spec fn assign<T>(scopes: Seq<ScopeView<T>>, name: Seq<char>, val: T) -> Seq<ScopeView<T>>
    decreases scopes.len(),
{
    if scopes.len() == 0 {
        scopes
    } else if position(scopes.last(), name) >= 0 {
        scopes.update(scopes.len() - 1, scope_put(scopes.last(), name, val))
    } else {
        assign(scopes.drop_last(), name, val).push(scopes.last())
    }
}

/// Giving a name a new value keeps the number of scopes.
pub proof fn lemma_assign_len<T>(scopes: Seq<ScopeView<T>>, name: Seq<char>, val: T)
    ensures
        assign(scopes, name, val).len() == scopes.len(),
    decreases scopes.len(),
{
    if scopes.len() > 0 && position(scopes.last(), name) < 0 {
        lemma_assign_len(scopes.drop_last(), name, val);
    }
}

pub proof fn lemma_position<T>(s: ScopeView<T>, name: Seq<char>)
    ensures
        -1 <= position(s, name) < s.len(),
        position(s, name) >= 0 ==> s[position(s, name)].0 == name,
        position(s, name) < 0 ==> forall|i: int| 0 <= i < s.len() ==> s[i].0 != name,
    decreases s.len(),
{
    if s.len() > 0 {
        lemma_position(s.drop_last(), name);
        assert forall|i: int| 0 <= i < s.len() - 1 implies s[i] == s.drop_last()[i] by {}
    }
}

pub proof fn lemma_position_distinct<T>(s: ScopeView<T>, name: Seq<char>, i: int)
    requires
        names_distinct(s),
        0 <= i < s.len(),
        s[i].0 == name,
    ensures
        position(s, name) == i,
{
    lemma_position(s, name);
}

pub proof fn lemma_scope_put<T>(s: ScopeView<T>, name: Seq<char>, val: T)
    requires
        names_distinct(s),
    ensures
        names_distinct(scope_put(s, name, val)),
        scope_get(scope_put(s, name, val), name) == Some(val),
        forall|k: Seq<char>| k != name ==> scope_get(#[trigger] scope_put(s, name, val), k) == scope_get(s, k),
{
    lemma_position(s, name);
    let t = scope_put(s, name, val);
    assert forall|k: Seq<char>| k != name implies #[trigger] scope_get(scope_put(s, name, val), k) == scope_get(s, k) by {
        lemma_position(s, k);
        lemma_position(t, k);
        if position(s, k) >= 0 {
            lemma_position_distinct(t, k, position(s, k));
        } else if position(t, k) >= 0 {
            assert(t[position(t, k)].0 == k);
        }
    }
    if position(s, name) >= 0 {
        lemma_position_distinct(t, name, position(s, name));
    } else {
        lemma_position_distinct(t, name, s.len() as int);
    }
}

pub proof fn lemma_scope_from_pairs_distinct<T>(pairs: Seq<(Seq<char>, T)>)
    ensures
        names_distinct(scope_from_pairs(pairs)),
    decreases pairs.len(),
{
    if pairs.len() > 0 {
        lemma_scope_from_pairs_distinct(pairs.drop_last());
        lemma_scope_put(scope_from_pairs(pairs.drop_last()), pairs.last().0, pairs.last().1);
    }
}

/// The variables visible at a point of a program, scope by scope, the innermost scope last.
/// Changing the value of an existing binding moves no name.
pub proof fn lemma_position_update<T>(s: ScopeView<T>, p: int, val: T, k: Seq<char>)
    requires
        0 <= p < s.len(),
    ensures
        position(s.update(p, (s[p].0, val)), k) == position(s, k),
    decreases s.len(),
{
    let s2 = s.update(p, (s[p].0, val));
    if p < s.len() - 1 {
        assert(s2.drop_last() =~= s.drop_last().update(p, (s[p].0, val)));
        lemma_position_update(s.drop_last(), p, val, k);
    } else {
        assert(s2.drop_last() =~= s.drop_last());
    }
}

/// What a scope gives after `name` is bound to `val` in it: `val` for `name`, and what it gave
/// before for every other name.
pub proof fn lemma_put_get<T>(s: ScopeView<T>, name: Seq<char>, val: T, k: Seq<char>)
    ensures
        scope_get(scope_put(s, name, val), k) == if k == name { Some(val) } else { scope_get(s, k) },
{
    lemma_position(s, name);
    lemma_position(s, k);
    let p = position(s, name);
    if p >= 0 {
        lemma_position_update(s, p, val, k);
    } else {
        assert(s.push((name, val)).drop_last() =~= s);
    }
}

/// A name just declared in the innermost scope is found, with its value.
pub proof fn law_get_after_insert<T>(scopes: Seq<ScopeView<T>>, name: Seq<char>, val: T)
    requires
        scopes.len() > 0,
    ensures
        lookup(scopes.update(scopes.len() - 1, scopes.last().push((name, val))), name) == Some(val),
{
    let s2 = scopes.update(scopes.len() - 1, scopes.last().push((name, val)));
    assert(s2.last() == scopes.last().push((name, val)));
}

/// Declaring a name in the innermost scope leaves what every other name gives as it was.
pub proof fn law_insert_keeps_others<T>(scopes: Seq<ScopeView<T>>, name: Seq<char>, other: Seq<char>, val: T)
    requires
        scopes.len() > 0,
        name != other,
    ensures
        lookup(scopes.update(scopes.len() - 1, scopes.last().push((name, val))), other) == lookup(scopes, other),
{
    let last = scopes.last();
    let s2 = scopes.update(scopes.len() - 1, last.push((name, val)));
    assert(s2.last() == last.push((name, val)));
    assert(s2.drop_last() =~= scopes.drop_last());
    assert(last.push((name, val)).drop_last() =~= last);
    lemma_position(last, other);
    let p = position(last, other);
    if p >= 0 {
        assert(last.push((name, val))[p] == last[p]);
    }
}

/// A name given a new value is then found with that value.
pub proof fn law_get_after_update<T>(scopes: Seq<ScopeView<T>>, name: Seq<char>, val: T)
    requires
        lookup(scopes, name) is Some,
    ensures
        lookup(assign(scopes, name, val), name) == Some(val),
    decreases scopes.len(),
{
    if scopes.len() > 0 {
        let last = scopes.last();
        if position(last, name) >= 0 {
            let a = assign(scopes, name, val);
            assert(a.last() == scope_put(last, name, val));
            lemma_put_get(last, name, val, name);
            lemma_position(scope_put(last, name, val), name);
            lemma_position(last, name);
            lemma_position_update(last, position(last, name), val, name);
        } else {
            law_get_after_update(scopes.drop_last(), name, val);
            let a = assign(scopes, name, val);
            assert(a.drop_last() =~= assign(scopes.drop_last(), name, val));
            assert(a.last() == last);
        }
    }
}

/// Giving a name a new value leaves what every other name gives as it was.
pub proof fn law_update_keeps_others<T>(scopes: Seq<ScopeView<T>>, name: Seq<char>, other: Seq<char>, val: T)
    requires
        name != other,
    ensures
        lookup(assign(scopes, name, val), other) == lookup(scopes, other),
    decreases scopes.len(),
{
    if scopes.len() > 0 {
        let last = scopes.last();
        let a = assign(scopes, name, val);
        lemma_position(last, name);
        if position(last, name) >= 0 {
            assert(a.last() == scope_put(last, name, val));
            assert(a.drop_last() =~= scopes.drop_last());
            lemma_put_get(last, name, val, other);
            lemma_position_update(last, position(last, name), val, other);
        } else {
            law_update_keeps_others(scopes.drop_last(), name, other, val);
            assert(a.drop_last() =~= assign(scopes.drop_last(), name, val));
            assert(a.last() == last);
        }
    }
}

/// Giving a value to a name that no scope declares changes nothing.
pub proof fn law_update_undeclared<T>(scopes: Seq<ScopeView<T>>, name: Seq<char>, val: T)
    requires
        lookup(scopes, name) is None,
    ensures
        assign(scopes, name, val) == scopes,
    decreases scopes.len(),
{
    if scopes.len() > 0 {
        lemma_position(scopes.last(), name);
        if position(scopes.last(), name) < 0 {
            law_update_undeclared(scopes.drop_last(), name, val);
            assert(scopes.drop_last().push(scopes.last()) =~= scopes);
        } else {
            lemma_position(scopes.last(), name);
        }
    }
}

/// Opening a scope hides no name, and closing it gives the scopes back.
pub proof fn law_open_close_scope<T>(scopes: Seq<ScopeView<T>>, name: Seq<char>)
    ensures
        lookup(scopes.push(Seq::empty()), name) == lookup(scopes, name),
        scopes.push(Seq::empty()).drop_last() == scopes,
{
    let s2 = scopes.push(Seq::<(Seq<char>, T)>::empty());
    assert(s2.drop_last() =~= scopes);
    assert(position(Seq::<(Seq<char>, T)>::empty(), name) == -1);
}

/// A name declared in an inner scope hides an outer declaration of it until that scope is
/// closed, when the outer one is found again.
pub proof fn law_shadowing<T>(scopes: Seq<ScopeView<T>>, name: Seq<char>, val: T)
    ensures
        lookup(scopes.push(seq![(name, val)]), name) == Some(val),
        lookup(scopes.push(seq![(name, val)]).drop_last(), name) == lookup(scopes, name),
{
    let s2 = scopes.push(seq![(name, val)]);
    assert(s2.drop_last() =~= scopes);
    assert(seq![(name, val)].last() == (name, val));
}

pub struct Environment<T> {
    scopes: Vec<Vec<(String, T)>>,
}

impl<T> View for Environment<T> {
    type V = Seq<ScopeView<T>>;

    closed spec fn view(&self) -> Seq<ScopeView<T>> {
        self.scopes@.map_values(|s: Vec<(String, T)>| entries_view(s@))
    }
}

impl<T> Environment<T> {
    #[verifier::type_invariant]
    spec fn scopes_well_formed(self) -> bool {
        forall|i: int| 0 <= i < self.scopes@.len() ==> names_distinct(#[trigger] entries_view(self.scopes@[i]@))
    }
}

/// The position of `name` in a scope, if it is bound there.
pub fn find_binding<T>(scope: &Vec<(String, T)>, name: &String) -> (r: Option<usize>)
    ensures
        match r {
            Some(p) => p == position(entries_view(scope@), name@),
            None => position(entries_view(scope@), name@) < 0,
        },
{
    let ghost s = entries_view(scope@);
    let mut i = scope.len();
    assert(s.take(i as int) =~= s);
    while i > 0
        invariant
            i <= scope@.len(),
            s == entries_view(scope@),
            position(s.take(i as int), name@) == position(s, name@),
        decreases i,
    {
        assert(s.take(i as int).drop_last() =~= s.take(i - 1));
        if scope[i - 1].0 == *name {
            return Some(i - 1);
        }
        i = i - 1;
    }
    assert(s.take(0).len() == 0);
    None
}

/// Binds `name` to `val` in a scope: a binding that exists gets the new value, otherwise one is
/// added.
pub fn put_binding<T>(scope: &mut Vec<(String, T)>, name: String, val: T)
    ensures
        entries_view(final(scope)@) == scope_put(entries_view(old(scope)@), name@, val),
{
    let ghost prev = entries_view(scope@);
    let p = find_binding(scope, &name);
    proof {
        lemma_position(prev, name@);
    }
    let ghost key = name@;
    match p {
        Some(p) => {
            scope.set(p, (name, val));
            assert(entries_view(scope@) =~= prev.update(p as int, (key, val)));
        },
        None => {
            scope.push((name, val));
            assert(entries_view(scope@) =~= prev.push((key, val)));
        },
    }
}

/// The scope made from pairs, a later pair for a name replacing an earlier one.
pub fn bindings_from<T>(pairs: Vec<(String, T)>) -> (r: Vec<(String, T)>)
    ensures
        entries_view(r@) == scope_from_pairs(entries_view(pairs@)),
{
    let ghost ps = entries_view(pairs@);
    assert(pairs.len() == pairs@.len());
    let mut rest = pairs;
    let mut r: Vec<(String, T)> = Vec::new();
    let mut k: usize = 0;
    while rest.len() > 0
        invariant
            k + rest@.len() == ps.len(),
            ps.len() <= usize::MAX,
            entries_view(rest@) == ps.skip(k as int),
            entries_view(r@) == scope_from_pairs(ps.take(k as int)),
        decreases rest@.len(),
    {
        let ghost rs = rest@;
        let ghost rv = entries_view(rs);
        let (name, val) = rest.remove(0);
        assert(rest@ =~= rs.subrange(1, rs.len() as int));
        assert forall|i: int| 0 <= i < rest@.len() implies entries_view(rest@)[i] == ps.skip(k + 1)[i] by {
            assert(rv[i + 1] == ps.skip(k as int)[i + 1]);
        }
        assert(entries_view(rest@) =~= ps.skip(k + 1));
        assert(ps.take(k + 1).drop_last() =~= ps.take(k as int));
        assert(ps.take(k + 1).last() == rv[0]);
        put_binding(&mut r, name, val);
        k = k + 1;
    }
    assert(ps.take(k as int) =~= ps);
    r
}

impl<T: Copy> Environment<T> {
    /// The position of `name` in a scope, if it is bound there.
    fn find_in(scope: &Vec<(String, T)>, name: &String) -> (r: Option<usize>)
        ensures
            match r {
                Some(p) => p == position(entries_view(scope@), name@),
                None => position(entries_view(scope@), name@) < 0,
            },
    {
        find_binding(scope, name)
    }

    /// Builds a scope from pairs, a later pair for a name replacing an earlier one.
    fn scope_of(pairs: Vec<(String, T)>) -> (r: Vec<(String, T)>)
        ensures
            entries_view(r@) == scope_from_pairs(entries_view(pairs@)),
    {
        bindings_from(pairs)
    }

    /// An environment with a single scope holding `defaults`.
    pub fn new(defaults: Vec<(String, T)>) -> (env: Environment<T>)
        ensures
            env@ == seq![scope_from_pairs(entries_view(defaults@))],
    {
        let s = Self::scope_of(defaults);
        proof {
            lemma_scope_from_pairs_distinct(entries_view(defaults@));
        }
        let mut scopes: Vec<Vec<(String, T)>> = Vec::new();
        scopes.push(s);
        let env = Environment { scopes };
        assert(env@ =~= seq![scope_from_pairs(entries_view(defaults@))]);
        env
    }

    /// Declares `name` in the innermost scope; refused (false) when that scope already binds it.
    pub fn insert(&mut self, name: &String, val: T) -> (r: bool)
        requires
            old(self)@.len() > 0,
        ensures
            r == (position(old(self)@.last(), name@) < 0),
            r ==> final(self)@ == old(self)@.update(old(self)@.len() - 1, old(self)@.last().push((name@, val))),
            !r ==> final(self)@ == old(self)@,
    {
        proof {
            use_type_invariant(&*self);
        }
        let last = self.scopes.len() - 1;
        let p = Self::find_in(&self.scopes[last], name);
        if p.is_some() {
            return false;
        }
        let ghost old_view = self@;
        proof {
            lemma_position(old_view.last(), name@);
            assert(names_distinct(entries_view(self.scopes@[last as int]@)));
        }
        let mut scopes: Vec<Vec<(String, T)>> = Vec::new();
        std::mem::swap(&mut scopes, &mut self.scopes);
        let mut scope: Vec<(String, T)> = Vec::new();
        std::mem::swap(&mut scope, &mut scopes[last]);
        scope.push((name.clone(), val));
        proof {
            assert(entries_view(scope@) =~= old_view.last().push((name@, val)));
        }
        scopes[last] = scope;
        proof {
            assert forall|i: int| 0 <= i < scopes@.len() implies names_distinct(#[trigger] entries_view(scopes@[i]@)) by {
                if i != last {
                    assert(scopes@[i] == old(self).scopes@[i]);
                }
            }
        }
        self.scopes = scopes;
        proof {
            assert(entries_view(scope@) == old_view.last().push((name@, val)));
            assert(self@ =~= old_view.update(old_view.len() - 1, old_view.last().push((name@, val))));
        }
        true
    }

    /// The value of `ident`, looked up from the innermost scope outwards.
    pub fn get(&self, ident: &String) -> (r: Option<T>)
        ensures
            r == lookup(self@, ident@),
    {
        let mut i = self.scopes.len();
        assert(self@.take(i as int) =~= self@);
        while i > 0
            invariant
                i <= self@.len(),
                lookup(self@.take(i as int), ident@) == lookup(self@, ident@),
            decreases i,
        {
            assert(self@.take(i as int).drop_last() =~= self@.take(i - 1));
            assert(self@.take(i as int).last() == entries_view(self.scopes@[i - 1]@));
            let found = Self::find_in(&self.scopes[i - 1], ident);
            proof {
                lemma_position(entries_view(self.scopes@[i - 1]@), ident@);
            }
            match found {
                Some(p) => {
                    return Some(self.scopes[i - 1][p].1);
                },
                None => {},
            }
            i = i - 1;
        }
        None
    }

    /// Gives `name` a new value in the innermost scope that binds it; false when no scope does.
    pub fn update(&mut self, name: &String, val: T) -> (r: bool)
        ensures
            r == (lookup(old(self)@, name@) is Some),
            final(self)@ == assign(old(self)@, name@, val),
    {
        proof {
            use_type_invariant(&*self);
        }
        let ghost old_view = self@;
        let mut i = self.scopes.len();
        assert(old_view.take(i as int) =~= old_view);
        while i > 0
            invariant
                i <= old_view.len(),
                self@ == old_view,
                old(self)@ == old_view,
                self.scopes@.len() == old_view.len(),
                lookup(old_view.take(i as int), name@) == lookup(old_view, name@),
                assign(old_view, name@, val) == assign(old_view.take(i as int), name@, val) + old_view.skip(i as int),
                forall|j: int| 0 <= j < self.scopes@.len() ==> names_distinct(#[trigger] entries_view(self.scopes@[j]@)),
            decreases i,
        {
            let ghost pre = old_view.take(i as int);
            assert(pre.drop_last() =~= old_view.take(i - 1));
            assert(pre.last() == entries_view(self.scopes@[i - 1]@));
            match Self::find_in(&self.scopes[i - 1], name) {
                Some(p) => {
                    let ghost sc = pre.last();
                    let ghost old_scopes = self.scopes@;
                    proof {
                        lemma_position(sc, name@);
                        assert(lookup(pre, name@) is Some);
                    }
                    let mut scopes: Vec<Vec<(String, T)>> = Vec::new();
                    std::mem::swap(&mut scopes, &mut self.scopes);
                    let mut scope: Vec<(String, T)> = Vec::new();
                    std::mem::swap(&mut scope, &mut scopes[i - 1]);
                    scope[p] = (name.clone(), val);
                    proof {
                        assert(entries_view(scope@) =~= sc.update(p as int, (name@, val)));
                        assert(names_distinct(entries_view(scope@)));
                    }
                    scopes[i - 1] = scope;
                    proof {
                        assert forall|j: int| 0 <= j < scopes@.len() implies names_distinct(#[trigger] entries_view(scopes@[j]@)) by {
                            if j != i - 1 {
                                assert(scopes@[j] == old_scopes[j]);
                            }
                        }
                    }
                    self.scopes = scopes;
                    proof {
                        assert(self@ =~= assign(pre, name@, val) + old_view.skip(i as int));
                    }
                    return true;
                },
                None => {},
            }
            proof {
                let a = assign(old_view.take(i - 1), name@, val);
                assert(assign(pre, name@, val) == a.push(pre.last()));
                assert(a.push(pre.last()) + old_view.skip(i as int) =~= a + old_view.skip(i - 1));
            }
            i = i - 1;
        }
        proof {
            assert(old_view.take(0) =~= Seq::<ScopeView<T>>::empty());
            assert(old_view.skip(0) =~= old_view);
            assert(self@ =~= assign(old_view, name@, val));
        }
        false
    }

    /// Whether some scope binds `name`.
    pub fn contains(&self, name: &String) -> (r: bool)
        ensures
            r == (lookup(self@, name@) is Some),
    {
        let mut i = self.scopes.len();
        assert(self@.take(i as int) =~= self@);
        while i > 0
            invariant
                i <= self@.len(),
                (lookup(self@.take(i as int), name@) is Some) == (lookup(self@, name@) is Some),
            decreases i,
        {
            assert(self@.take(i as int).drop_last() =~= self@.take(i - 1));
            assert(self@.take(i as int).last() == entries_view(self.scopes@[i - 1]@));
            if Self::find_in(&self.scopes[i - 1], name).is_some() {
                return true;
            }
            i = i - 1;
        }
        false
    }

    /// Opens a new, empty innermost scope.
    pub fn add_scope(&mut self)
        ensures
            final(self)@ == old(self)@.push(Seq::empty()),
    {
        self.add_scope_vars(Vec::new());
        assert(entries_view(Seq::<(String, T)>::empty()) =~= Seq::empty());
    }

    /// Opens a new innermost scope holding `vars`, a later pair for a name replacing an earlier one.
    pub fn add_scope_vars(&mut self, vars: Vec<(String, T)>)
        ensures
            final(self)@ == old(self)@.push(scope_from_pairs(entries_view(vars@))),
    {
        proof {
            use_type_invariant(&*self);
            lemma_scope_from_pairs_distinct(entries_view(vars@));
        }
        let s = Self::scope_of(vars);
        let mut scopes: Vec<Vec<(String, T)>> = Vec::new();
        std::mem::swap(&mut scopes, &mut self.scopes);
        scopes.push(s);
        proof {
            assert forall|j: int| 0 <= j < scopes@.len() implies names_distinct(#[trigger] entries_view(scopes@[j]@)) by {
                if j < scopes@.len() - 1 {
                    assert(scopes@[j] == old(self).scopes@[j]);
                }
            }
        }
        self.scopes = scopes;
        assert(self@ =~= old(self)@.push(scope_from_pairs(entries_view(vars@))));
    }

    /// Closes the innermost scope, if there is one.
    pub fn remove_scope(&mut self)
        ensures
            final(self)@ == if old(self)@.len() > 0 { old(self)@.drop_last() } else { old(self)@ },
    {
        proof {
            use_type_invariant(&*self);
        }
        let mut scopes: Vec<Vec<(String, T)>> = Vec::new();
        std::mem::swap(&mut scopes, &mut self.scopes);
        let _ = scopes.pop();
        proof {
            assert forall|j: int| 0 <= j < scopes@.len() implies names_distinct(#[trigger] entries_view(scopes@[j]@)) by {
                assert(scopes@[j] == old(self).scopes@[j]);
            }
        }
        self.scopes = scopes;
        assert(self@ =~= if old(self)@.len() > 0 { old(self)@.drop_last() } else { old(self)@ });
    }

    /// The value `name` has in the innermost scope, if that scope binds it.
    pub fn get_innermost(&self, name: &String) -> (r: Option<T>)
        requires
            self@.len() > 0,
        ensures
            r == scope_get(self@.last(), name@),
    {
        let last = self.scopes.len() - 1;
        assert(self@.last() == entries_view(self.scopes@[last as int]@));
        let found = Self::find_in(&self.scopes[last], name);
        proof {
            lemma_position(self@.last(), name@);
        }
        match found {
            Some(p) => Some(self.scopes[last][p].1),
            None => None,
        }
    }

    /// The bindings of the innermost scope, in the order they were made.
    pub fn innermost(&self) -> (r: &Vec<(String, T)>)
        requires
            self@.len() > 0,
        ensures
            entries_view(r@) == self@.last(),
    {
        &self.scopes[self.scopes.len() - 1]
    }
}

} // verus!
