//! The scope chain: a stack of scopes, the global scope at the bottom and the
//! innermost block's scope on top.
use vstd::prelude::*;
use crate::interpreter::Object;
use crate::text::{push_str, string_of};
use crate::token::Value;

verus! {

/// The bindings of one scope, as the interpreter holds them: names are unique.
pub type Scope = Vec<(String, Object)>;

/// What a scope binds.
pub open spec fn scope_map(sc: Seq<(String, Object)>) -> Map<Seq<char>, Value>
    decreases sc.len(),
{
    if sc.len() == 0 {
        Map::empty()
    } else {
        scope_map(sc.drop_last()).insert(sc.last().0@, sc.last().1@)
    }
}

pub open spec fn names_unique(sc: Seq<(String, Object)>) -> bool {
    forall|i: int, j: int| 0 <= i < j < sc.len() ==> sc[i].0@ != sc[j].0@
}

/// The value bound to `name` in the innermost scope of `chain` that binds it.
pub open spec fn lookup(chain: Seq<Map<Seq<char>, Value>>, name: Seq<char>) -> Option<Value>
    decreases chain.len(),
{
    if chain.len() == 0 {
        None
    } else if chain.last().contains_key(name) {
        Some(chain.last()[name])
    } else {
        lookup(chain.drop_last(), name)
    }
}

/// The chain after rebinding `name` in the innermost scope that binds it, or
/// `None` where no scope binds it.
pub open spec fn assign_chain(chain: Seq<Map<Seq<char>, Value>>, name: Seq<char>, v: Value)
    -> Option<Seq<Map<Seq<char>, Value>>>
    decreases chain.len(),
{
    if chain.len() == 0 {
        None
    } else if chain.last().contains_key(name) {
        Some(chain.update(chain.len() - 1, chain.last().insert(name, v)))
    } else {
        match assign_chain(chain.drop_last(), name, v) {
            Some(c) => Some(c.push(chain.last())),
            None => None,
        }
    }
}

/// The chain after binding `name` in its innermost scope.
pub open spec fn define_chain(chain: Seq<Map<Seq<char>, Value>>, name: Seq<char>, v: Value)
    -> Seq<Map<Seq<char>, Value>> {
    chain.update(chain.len() - 1, chain.last().insert(name, v))
}

/// A name is assignable exactly where it can be looked up.
pub proof fn lemma_assign_iff_lookup(chain: Seq<Map<Seq<char>, Value>>, name: Seq<char>, v: Value)
    ensures
        (assign_chain(chain, name, v) is Some) == (lookup(chain, name) is Some),
        assign_chain(chain, name, v) is Some ==> assign_chain(chain, name, v)->0.len()
            == chain.len(),
    decreases chain.len(),
{
    if chain.len() > 0 && !chain.last().contains_key(name) {
        lemma_assign_iff_lookup(chain.drop_last(), name, v);
    }
}

proof fn lemma_scope_map_index(sc: Seq<(String, Object)>, i: int)
    requires
        names_unique(sc),
        0 <= i < sc.len(),
    ensures
        scope_map(sc).contains_key(sc[i].0@),
        scope_map(sc)[sc[i].0@] == sc[i].1@,
    decreases sc.len(),
{
    if i < sc.len() - 1 {
        lemma_scope_map_index(sc.drop_last(), i);
    }
}

proof fn lemma_scope_map_absent(sc: Seq<(String, Object)>, k: Seq<char>)
    requires
        forall|i: int| 0 <= i < sc.len() ==> sc[i].0@ != k,
    ensures
        !scope_map(sc).contains_key(k),
    decreases sc.len(),
{
    if sc.len() > 0 {
        lemma_scope_map_absent(sc.drop_last(), k);
    }
}

proof fn lemma_scope_map_update(sc: Seq<(String, Object)>, i: int, e: (String, Object))
    requires
        names_unique(sc),
        0 <= i < sc.len(),
        sc[i].0@ == e.0@,
    ensures
        scope_map(sc.update(i, e)) =~= scope_map(sc).insert(e.0@, e.1@),
        names_unique(sc.update(i, e)),
    decreases sc.len(),
{
    if i < sc.len() - 1 {
        lemma_scope_map_update(sc.drop_last(), i, e);
        assert(sc.update(i, e).drop_last() =~= sc.drop_last().update(i, e));
    } else {
        assert(sc.update(i, e).drop_last() =~= sc.drop_last());
        lemma_scope_map_absent(sc.drop_last(), e.0@);
    }
}

/// Errors of the scope chain.
#[derive(Debug)]
pub enum EnvError {
    VarNotFound(String),
    VarDefine(String),
    VarAssign(String),
}

/// The message of a failed lookup of `name`.
pub open spec fn not_found_message(name: Seq<char>) -> Seq<char> {
    "Cannot find the variable '"@ + name + "' in the scope"@
}

/// The message of a failed assignment to `name`.
pub open spec fn undefined_message(name: Seq<char>) -> Seq<char> {
    "Undefined variable "@ + name + "."@
}

/// A chain of scopes mapping names to values.
pub struct Env {
    scopes: Vec<Scope>,
}

impl View for Env {
    type V = Seq<Map<Seq<char>, Value>>;

    /// The scopes' bindings, outermost first.
    closed spec fn view(&self) -> Seq<Map<Seq<char>, Value>> {
        Seq::new(self.scopes@.len(), |i: int| scope_map(self.scopes@[i]@))
    }
}

/// Finds the position of `name` in a scope.
fn find_in_scope(sc: &Scope, name: &String) -> (r: Option<usize>)
    requires
        names_unique(sc@),
    ensures
        r is Some ==> r->0 < sc@.len() && sc@[r->0 as int].0@ == name@,
        r is Some ==> scope_map(sc@).contains_key(name@) && scope_map(sc@)[name@]
            == sc@[r->0 as int].1@,
        r is None ==> !scope_map(sc@).contains_key(name@),
{
    let mut i: usize = 0;
    while i < sc.len()
        invariant
            i <= sc@.len(),
            names_unique(sc@),
            forall|j: int| 0 <= j < i ==> sc@[j].0@ != name@,
        decreases sc.len() - i,
    {
        if sc[i].0 == *name {
            proof {
                lemma_scope_map_index(sc@, i as int);
            }
            return Some(i);
        }
        i = i + 1;
    }
    proof {
        lemma_scope_map_absent(sc@, name@);
    }
    None
}

impl Env {
    /// Well-formed: at least the global scope, and unique names in each scope.
    pub closed spec fn wf(&self) -> bool {
        &&& self.scopes@.len() >= 1
        &&& forall|i: int| 0 <= i < self.scopes@.len() ==> names_unique(#[trigger] self.scopes@[i]@)
    }

    /// A new scope, enclosed by `enclosing` where given, else the global scope.
    pub fn new(enclosing: Option<Env>) -> (r: Env)
        requires
            enclosing is Some ==> enclosing->0.wf(),
        ensures
            r.wf(),
            r@ == match enclosing {
                Some(e) => e@.push(Map::empty()),
                None => seq![Map::empty()],
            },
    {
        match enclosing {
            Some(mut e) => {
                e.enter_scope();
                e
            },
            None => {
                let mut scopes: Vec<Scope> = Vec::new();
                scopes.push(Vec::new());
                let r = Env { scopes };
                assert(r@ =~= seq![Map::empty()]);
                r
            },
        }
    }

    /// Opens a new innermost scope.
    pub fn enter_scope(&mut self)
        requires
            old(self).wf(),
        ensures
            final(self).wf(),
            final(self)@ == old(self)@.push(Map::empty()),
    {
        self.scopes.push(Vec::new());
        assert(self@ =~= old(self)@.push(Map::empty()));
    }

    /// Closes the innermost scope; the global scope stays.
    pub fn exit_scope(&mut self)
        requires
            old(self).wf(),
        ensures
            final(self).wf(),
            final(self)@ == if old(self)@.len() > 1 { old(self)@.drop_last() } else { old(self)@ },
    {
        if self.scopes.len() > 1 {
            self.scopes.pop();
            assert(self@ =~= old(self)@.drop_last());
        }
    }

    /// How many scopes the chain holds.
    pub fn depth(&self) -> (r: usize)
        ensures
            r == self@.len(),
    {
        self.scopes.len()
    }

    /// Binds `ident` in scope `i`, replacing a binding of the same name there.
    fn set_in_scope(&mut self, i: usize, ident: String, value: Object)
        requires
            old(self).wf(),
            i < old(self)@.len(),
        ensures
            final(self).wf(),
            final(self)@ == old(self)@.update(i as int, old(self)@[i as int].insert(ident@, value@)),
    {
        let mut sc = self.scopes.remove(i);
        let ghost sc0 = sc@;
        assert(names_unique(sc0)) by {
            assert(sc0 == old(self).scopes@[i as int]@);
        }
        match find_in_scope(&sc, &ident) {
            Some(j) => {
                let ghost e = (ident, value);
                proof {
                    lemma_scope_map_update(sc0, j as int, (ident, value));
                }
                sc.set(j, (ident, value));
                assert(sc@ == sc0.update(j as int, e));
            },
            None => {
                sc.push((ident, value));
                proof {
                    assert(sc@.drop_last() =~= sc0);
                    assert forall|a: int, b: int| 0 <= a < b < sc@.len() implies sc@[a].0@ != sc@[b].0@ by {
                        if b == sc@.len() - 1 {
                            if scope_map(sc0).contains_key(sc@[b].0@) {
                            }
                            lemma_scope_map_index(sc0, a);
                        }
                    }
                }
            },
        }
        self.scopes.insert(i, sc);
        proof {
            assert(scope_map(sc@) =~= scope_map(sc0).insert(ident@, value@));
            assert(self@ =~= old(self)@.update(i as int, old(self)@[i as int].insert(ident@, value@)));
        }
    }

    /// Binds `ident` in the innermost scope, replacing a binding of the same name
    /// there; outer scopes are untouched. This never fails.
    pub fn define(&mut self, ident: String, value: Object) -> (r: Result<(), EnvError>)
        requires
            old(self).wf(),
        ensures
            final(self).wf(),
            r is Ok,
            final(self)@ == define_chain(old(self)@, ident@, value@),
    {
        let last = self.scopes.len() - 1;
        self.set_in_scope(last, ident, value);
        Ok(())
    }

    /// The innermost scope that binds `name`.
    fn innermost_with(&self, name: &String) -> (r: Option<usize>)
        requires
            self.wf(),
        ensures
            r is Some ==> r->0 < self@.len() && innermost(self@, name@, r->0 as int),
            r is None ==> forall|i: int| 0 <= i < self@.len() ==> !(#[trigger] self@[i]).contains_key(name@),
    {
        let mut k: usize = self.scopes.len();
        while k > 0
            invariant
                k <= self@.len(),
                self.wf(),
                forall|i: int| k <= i < self@.len() ==> !(#[trigger] self@[i]).contains_key(name@),
            decreases k,
        {
            let sc = &self.scopes[k - 1];
            assert(names_unique(sc@));
            match find_in_scope(sc, name) {
                Some(_) => {
                    return Some(k - 1);
                },
                None => {},
            }
            k = k - 1;
        }
        None
    }

    /// Rebinds `ident` in the innermost scope that binds it; fails where no
    /// scope of the chain binds it, and never declares.
    pub fn assign(&mut self, ident: String, value: Object) -> (r: Result<(), EnvError>)
        requires
            old(self).wf(),
        ensures
            final(self).wf(),
            match assign_chain(old(self)@, ident@, value@) {
                Some(c) => r is Ok && final(self)@ == c,
                None => final(self)@ == old(self)@ && (r matches Err(EnvError::VarAssign(m))
                    && m@ == undefined_message(ident@)),
            },
    {
        match self.innermost_with(&ident) {
            Some(i) => {
                proof {
                    lemma_innermost(self@, ident@, value@, i as int);
                }
                self.set_in_scope(i, ident, value);
                Ok(())
            },
            None => {
                proof {
                    lemma_none_binds(self@, ident@, value@);
                }
                let mut m = string_of("Undefined variable ");
                push_str(&mut m, ident.as_str());
                push_str(&mut m, ".");
                Err(EnvError::VarAssign(m))
            },
        }
    }

    /// The value bound to `ident` in the innermost scope that binds it.
    pub fn get(&self, ident: String) -> (r: Result<Object, EnvError>)
        requires
            self.wf(),
        ensures
            match lookup(self@, ident@) {
                Some(v) => r matches Ok(o) && o@ == v,
                None => r matches Err(EnvError::VarNotFound(m)) && m@ == not_found_message(ident@),
            },
    {
        match self.innermost_with(&ident) {
            Some(i) => {
                proof {
                    lemma_innermost(self@, ident@, Value::Nil, i as int);
                }
                let sc = &self.scopes[i];
                assert(names_unique(sc@));
                let j = find_in_scope(sc, &ident);
                let j = j.unwrap();
                Ok(sc[j].1.clone())
            },
            None => {
                proof {
                    lemma_none_binds(self@, ident@, Value::Nil);
                }
                let mut m = string_of("Cannot find the variable '");
                push_str(&mut m, ident.as_str());
                push_str(&mut m, "' in the scope");
                Err(EnvError::VarNotFound(m))
            },
        }
    }

    /// The chain without its innermost scope, where there is one to return to.
    pub fn get_enclosing(&self) -> (r: Option<Env>)
        requires
            self.wf(),
        ensures
            self@.len() > 1 ==> (r matches Some(e) && e.wf() && e@ == self@.drop_last()),
            self@.len() <= 1 ==> r is None,
    {
        if self.scopes.len() <= 1 {
            return None;
        }
        let mut scopes: Vec<Scope> = Vec::new();
        let mut i: usize = 0;
        while i < self.scopes.len() - 1
            invariant
                self.wf(),
                i <= self.scopes@.len() - 1,
                scopes@.len() == i,
                forall|k: int| 0 <= k < i ==> (#[trigger] scopes@[k])@ == self.scopes@[k]@,
            decreases self.scopes.len() - i,
        {
            scopes.push(copy_scope(&self.scopes[i]));
            i = i + 1;
        }
        let e = Env { scopes };
        proof {
            assert(e@ =~= self@.drop_last());
        }
        Some(e)
    }
}

fn copy_scope(sc: &Scope) -> (r: Scope)
    ensures
        r@ == sc@,
{
    let mut r: Scope = Vec::new();
    let mut i: usize = 0;
    while i < sc.len()
        invariant
            i <= sc@.len(),
            r@ == sc@.subrange(0, i as int),
        decreases sc.len() - i,
    {
        r.push((sc[i].0.clone(), sc[i].1.clone()));
        i = i + 1;
        assert(r@ =~= sc@.subrange(0, i as int));
    }
    assert(sc@.subrange(0, sc@.len() as int) =~= sc@);
    r
}

/// Scope `i` is the innermost scope of `chain` that binds `name`.
pub open spec fn innermost(chain: Seq<Map<Seq<char>, Value>>, name: Seq<char>, i: int) -> bool {
    &&& 0 <= i < chain.len()
    &&& chain[i].contains_key(name)
    &&& forall|k: int| i < k < chain.len() ==> !(#[trigger] chain[k]).contains_key(name)
}

proof fn lemma_innermost(chain: Seq<Map<Seq<char>, Value>>, name: Seq<char>, v: Value, i: int)
    requires
        innermost(chain, name, i),
    ensures
        lookup(chain, name) == Some(chain[i][name]),
        assign_chain(chain, name, v) == Some(chain.update(i, chain[i].insert(name, v))),
    decreases chain.len(),
{
    if i < chain.len() - 1 {
        assert(!chain[chain.len() - 1].contains_key(name));
        lemma_innermost(chain.drop_last(), name, v, i);
        assert(chain.drop_last().update(i, chain[i].insert(name, v)).push(chain.last())
            =~= chain.update(i, chain[i].insert(name, v)));
    }
}

pub proof fn lemma_none_binds(chain: Seq<Map<Seq<char>, Value>>, name: Seq<char>, v: Value)
    requires
        forall|i: int| 0 <= i < chain.len() ==> !(#[trigger] chain[i]).contains_key(name),
    ensures
        lookup(chain, name) is None,
        assign_chain(chain, name, v) is None,
    decreases chain.len(),
{
    if chain.len() > 0 {
        assert(!chain[chain.len() - 1].contains_key(name));
        lemma_none_binds(chain.drop_last(), name, v);
    }
}

/// A name that cannot be looked up is bound in no scope of the chain.
pub proof fn lemma_lookup_none(chain: Seq<Map<Seq<char>, Value>>, name: Seq<char>)
    requires
        lookup(chain, name) is None,
    ensures
        forall|i: int| 0 <= i < chain.len() ==> !(#[trigger] chain[i]).contains_key(name),
    decreases chain.len(),
{
    if chain.len() > 0 {
        lemma_lookup_none(chain.drop_last(), name);
        assert forall|i: int| 0 <= i < chain.len() implies !(#[trigger] chain[i]).contains_key(name) by {
            if i < chain.len() - 1 {
                assert(chain[i] == chain.drop_last()[i]);
            }
        }
    }
}

/// Scopes `0 .. upto` of two chains of one length bind the same names.
pub open spec fn same_names(c1: Seq<Map<Seq<char>, Value>>, c2: Seq<Map<Seq<char>, Value>>, upto: int) -> bool {
    &&& c1.len() == c2.len()
    &&& forall|k: int| 0 <= k < upto && k < c1.len() ==> (#[trigger] c1[k]).dom() == c2[k].dom()
}

/// Assignment rebinds a name where it is bound and binds no new one.
pub proof fn lemma_assign_keeps_names(chain: Seq<Map<Seq<char>, Value>>, name: Seq<char>, v: Value)
    ensures
        assign_chain(chain, name, v) matches Some(c2) ==> same_names(chain, c2, chain.len() as int),
    decreases chain.len(),
{
    if chain.len() > 0 {
        if chain.last().contains_key(name) {
            assert(chain.last().insert(name, v).dom() =~= chain.last().dom());
        } else {
            lemma_assign_keeps_names(chain.drop_last(), name, v);
            match assign_chain(chain.drop_last(), name, v) {
                Some(c) => {
                    let c2 = c.push(chain.last());
                    assert forall|k: int| 0 <= k < chain.len() implies (#[trigger] chain[k]).dom() == c2[k].dom() by {
                        if k < chain.len() - 1 {
                            assert(chain[k] == chain.drop_last()[k]);
                        }
                    }
                },
                None => {},
            }
        }
    }
}

} // verus!
