//! Lexically scoped symbol tables.
use vstd::prelude::*;
use crate::text::same_text;

verus! {

/// A stack of scopes, each mapping names to values. A name defined in an inner scope
/// hides the same name in the outer scopes.
pub struct SymbolTable<V> {
    table: Vec<Vec<(String, V)>>,
}

/// The map that the bindings of one scope define: a later binding of a name
/// replaces an earlier one.
pub open spec fn scope_map<V>(s: Seq<(String, V)>) -> Map<Seq<char>, V>
    decreases s.len(),
{
    if s.len() == 0 {
        Map::empty()
    } else {
        scope_map(s.drop_last()).insert(s.last().0@, s.last().1)
    }
}

/// The value bound to `k` in the innermost scope that binds it.
pub open spec fn lookup_in<V>(scopes: Seq<Map<Seq<char>, V>>, k: Seq<char>) -> Option<V>
    decreases scopes.len(),
{
    if scopes.len() == 0 {
        None
    } else if scopes.last().contains_key(k) {
        Some(scopes.last()[k])
    } else {
        lookup_in(scopes.drop_last(), k)
    }
}

/// The value bound to `k` in the innermost scope, if that scope binds it.
pub open spec fn lookup_current_in<V>(scopes: Seq<Map<Seq<char>, V>>, k: Seq<char>) -> Option<V> {
    if scopes.len() == 0 {
        None
    } else if scopes.last().contains_key(k) {
        Some(scopes.last()[k])
    } else {
        None
    }
}

/// The scopes after binding `k` to `v` in the innermost one.
pub open spec fn define_in<V>(scopes: Seq<Map<Seq<char>, V>>, k: Seq<char>, v: V) -> Seq<Map<Seq<char>, V>>
    recommends
        scopes.len() > 0,
{
    scopes.update(scopes.len() - 1, scopes.last().insert(k, v))
}

/// Where in a scope's bindings the last binding of `k` stands, if any.
proof fn lemma_scope_map_find<V>(s: Seq<(String, V)>, k: Seq<char>, i: int)
    requires
        0 <= i <= s.len(),
        forall|j: int| i <= j < s.len() ==> s[j].0@ != k,
    ensures
        scope_map(s).contains_key(k) == scope_map(s.take(i)).contains_key(k),
        scope_map(s).contains_key(k) ==> scope_map(s)[k] == scope_map(s.take(i))[k],
    decreases s.len() - i,
{
    if i < s.len() {
        assert(s.drop_last().take(i) == s.take(i));
        lemma_scope_map_find(s.drop_last(), k, i);
    } else {
        assert(s.take(i) == s);
    }
}

impl<V> SymbolTable<V> {
    /// The scopes, outermost first.
    pub closed spec fn scopes(&self) -> Seq<Map<Seq<char>, V>> {
        self.table@.map_values(|sc: Vec<(String, V)>| scope_map(sc@))
    }

    /// An empty table, without any scope.
    pub fn new() -> (r: Self)
        ensures
            r.scopes() == Seq::<Map<Seq<char>, V>>::empty(),
    {
        let r = Self { table: Vec::new() };
        assert(r.scopes() =~= Seq::<Map<Seq<char>, V>>::empty());
        r
    }

    /// Opens a new innermost scope.
    pub fn push(&mut self)
        ensures
            final(self).scopes() == old(self).scopes().push(Map::empty()),
    {
        self.table.push(Vec::new());
        assert(self.scopes() =~= old(self).scopes().push(Map::empty()));
    }

    /// Closes the innermost scope, if there is one.
    pub fn pop(&mut self)
        ensures
            old(self).scopes().len() > 0 ==> final(self).scopes() == old(self).scopes().drop_last(),
            old(self).scopes().len() == 0 ==> final(self).scopes() == old(self).scopes(),
    {
        self.table.pop();
        assert(self.scopes() =~= if old(self).scopes().len() > 0 {
            old(self).scopes().drop_last()
        } else {
            old(self).scopes()
        });
    }

    /// Binds `k` to `v` in the innermost scope.
    pub fn define(&mut self, k: &str, v: V)
        requires
            old(self).scopes().len() > 0,
        ensures
            final(self).scopes() == define_in(old(self).scopes(), k@, v),
    {
        let n = self.table.len();
        let name = text_of_str(k);
        let ghost old_last = self.table@[n - 1]@;
        self.table[n - 1].push((name, v));
        proof {
            let new_last = self.table@[n - 1]@;
            assert(new_last.drop_last() == old_last);
            assert(self.scopes() =~= define_in(old(self).scopes(), k@, v));
        }
    }

    /// The value bound to `k` in the innermost scope that binds it.
    pub fn lookup(&self, k: &str) -> (r: Option<&V>)
        ensures
            r matches Some(v) ==> lookup_in(self.scopes(), k@) == Some(*v),
            r is None ==> lookup_in(self.scopes(), k@) is None,
    {
        let mut i: usize = self.table.len();
        assert(self.scopes().take(i as int) =~= self.scopes());
        while i > 0
            invariant
                i <= self.table.len(),
                lookup_in(self.scopes(), k@) == lookup_in(self.scopes().take(i as int), k@),
            decreases i,
        {
            let found = find_binding(&self.table[i - 1], k);
            proof {
                let pre = self.scopes().take(i as int);
                assert(pre.drop_last() == self.scopes().take(i - 1));
                assert(pre.last() == scope_map(self.table@[i - 1]@));
            }
            match found {
                Some(v) => {
                    return Some(v);
                },
                None => {},
            }
            i -= 1;
        }
        None
    }

    /// The value bound to `k` in the innermost scope, if that scope binds it.
    pub fn lookup_current_scope(&self, k: &str) -> (r: Option<&V>)
        ensures
            r matches Some(v) ==> lookup_current_in(self.scopes(), k@) == Some(*v),
            r is None ==> lookup_current_in(self.scopes(), k@) is None,
    {
        let n = self.table.len();
        if n == 0 {
            None
        } else {
            find_binding(&self.table[n - 1], k)
        }
    }
}

fn text_of_str(k: &str) -> (r: String)
    ensures
        r@ == k@,
{
    k.to_owned()
}

/// The value of the last binding of `k` in one scope.
fn find_binding<'a, V>(scope: &'a Vec<(String, V)>, k: &str) -> (r: Option<&'a V>)
    ensures
        r matches Some(v) ==> scope_map(scope@).contains_key(k@) && scope_map(scope@)[k@] == *v,
        r is None ==> !scope_map(scope@).contains_key(k@),
{
    let mut j: usize = scope.len();
    while j > 0
        invariant
            j <= scope.len(),
            forall|m: int| j <= m < scope.len() ==> scope@[m].0@ != k@,
        decreases j,
    {
        if same_text(scope[j - 1].0.as_str(), k) {
            proof {
                lemma_scope_map_find(scope@, k@, j as int);
                assert(scope@.take(j as int).drop_last() == scope@.take(j - 1));
            }
            return Some(&scope[j - 1].1);
        }
        j -= 1;
    }
    proof {
        lemma_scope_map_find(scope@, k@, 0);
    }
    None
}

/// A binding made in the innermost scope is what a lookup of the same name finds.
pub proof fn law_define_then_lookup<V>(scopes: Seq<Map<Seq<char>, V>>, k: Seq<char>, v: V)
    requires
        scopes.len() > 0,
    ensures
        lookup_in(define_in(scopes, k, v), k) == Some(v),
        lookup_current_in(define_in(scopes, k, v), k) == Some(v),
{
}

/// A binding made in the innermost scope leaves the lookups of every other name as they were.
pub proof fn law_define_keeps_others<V>(scopes: Seq<Map<Seq<char>, V>>, k: Seq<char>, v: V, other: Seq<char>)
    requires
        scopes.len() > 0,
        other != k,
    ensures
        lookup_in(define_in(scopes, k, v), other) == lookup_in(scopes, other),
{
    assert(define_in(scopes, k, v).drop_last() == scopes.drop_last());
}

/// Opening a scope and closing it again gives back the same scopes.
pub proof fn law_push_then_pop<V>(scopes: Seq<Map<Seq<char>, V>>)
    ensures
        scopes.push(Map::empty()).drop_last() == scopes,
{
    assert(scopes.push(Map::empty()).drop_last() =~= scopes);
}

/// A freshly opened scope binds nothing of its own, and hides nothing of the outer ones.
pub proof fn law_fresh_scope<V>(scopes: Seq<Map<Seq<char>, V>>, k: Seq<char>)
    ensures
        lookup_current_in(scopes.push(Map::empty()), k) is None,
        lookup_in(scopes.push(Map::empty()), k) == lookup_in(scopes, k),
{
    assert(scopes.push(Map::empty()).drop_last() =~= scopes);
}

} // verus!
