//! Logical states.
//!
//! A logical state is an immutable collection of variable bindings.
//! Variables are stored with one level of indirection: each variable
//! points at a slot, and a slot may carry a value.  Variables that have
//! been unified with one another share a slot, so that binding any one
//! of them becomes visible to all.

use crate::btmap::BtMap;
use vstd::prelude::*;
use vstd::set_lib::lemma_len_subset;

verus! {

broadcast use vstd::set::group_set_axioms, vstd::map::group_map_axioms;

/// A collection of possible states.
pub type PossibleStates<T> = Vec<State<T>>;

/// Values used in a state must be unifiable.  Unifying two values
/// yields the previous state exactly when the values can be reconciled,
/// and no state otherwise.
pub trait Unif: Sized {
    /// When two values can be reconciled.  For atomic values this is
    /// equality.
    spec fn unifiable(self, other: Self) -> bool;

    /// Reconciles two values against a state.
    fn unify(&self, other: &Self, prev: &State<Self>) -> (r: PossibleStates<Self>)
        ensures
            self.unifiable(*other) ==> r@ == seq![*prev],
            !self.unifiable(*other) ==> r@ == Seq::<State<Self>>::empty(),
    ;

    /// Produces a value equal to this one, so that one goal can be
    /// evaluated against many states.
    fn duplicate(&self) -> (r: Self)
        ensures
            r == *self,
    ;
}

/// Represents a logical variable.  A variable must be created by calling
/// `State::make_var()` before a goal is evaluated (by passing the
/// resulting state to a goal).
#[derive(Clone, Copy)]
pub struct Var {
    index: usize,
}

impl Var {
    /// The index this variable carries.
    pub closed spec fn index(self) -> usize {
        self.index
    }
}

/// A logical state, containing a collection of variable bindings.
///
/// States are persistent: every operation leaves its input untouched and
/// returns fresh states that share structure with it.
pub struct State<T> {
    bindings: BtMap<usize>,  // var index -> slot
    slots: BtMap<T>,  // slot -> value
    next_index: usize,
}

impl<T> State<T> {
    /// The variable-to-slot table.
    pub closed spec fn bindings(self) -> Map<usize, usize> {
        self.bindings@
    }

    /// The slot-to-value table.
    pub closed spec fn slots(self) -> Map<usize, T> {
        self.slots@
    }

    /// The index the next fresh variable will carry.
    pub closed spec fn next_index(self) -> usize {
        self.next_index
    }

    /// Every state reachable through this module's operations is well
    /// formed: variable indices in the tables stay below `next_index`,
    /// every slot named by a binding is itself a bound index, and only
    /// slots named by some binding carry a value.
    #[verifier::type_invariant]
    pub open spec fn wf(self) -> bool {
        &&& forall|i: usize| #[trigger] self.bindings().contains_key(i) ==> i < self.next_index()
        &&& forall|i: usize|
            #[trigger] self.bindings().contains_key(i) ==> self.bindings().contains_key(
                self.bindings()[i],
            )
        &&& forall|s: usize| #[trigger] self.slots().contains_key(s) ==> self.bindings().contains_key(s)
    }

    /// The slot a variable points at, if it points at one.
    pub open spec fn slot_of(self, v: Var) -> Option<usize> {
        if self.bindings().contains_key(v.index()) {
            Some(self.bindings()[v.index()])
        } else {
            None
        }
    }

    /// The value a variable is bound to: the value under the variable's
    /// slot, or none if the variable is unaliased, or aliased but unbound.
    pub open spec fn get_spec(self, v: Var) -> Option<T> {
        match self.slot_of(v) {
            Some(s) => if self.slots().contains_key(s) {
                Some(self.slots()[s])
            } else {
                None
            },
            None => None,
        }
    }

    /// Whether a variable is bound to a value.
    pub open spec fn binds_spec(self, v: Var) -> bool {
        self.get_spec(v) is Some
    }
}

/// The set of indices below `n`.
spec fn below(n: usize) -> Set<usize> {
    Set::new(|i: usize| i < n)
}

proof fn lemma_below(n: usize)
    ensures
        below(n).finite(),
        below(n).len() == n,
    decreases n,
{
    if n == 0 {
        assert(below(0) =~= Set::empty());
    } else {
        let m = (n - 1) as usize;
        lemma_below(m);
        assert(below(n) =~= below(m).insert(m));
    }
}

/// A table whose keys all lie below `n`, and which misses a key below
/// `n`, has fewer than `n` entries.
proof fn lemma_room<V>(m: Map<usize, V>, n: usize, x: usize)
    requires
        forall|i: usize| #[trigger] m.contains_key(i) ==> i < n,
        x < n,
        !m.contains_key(x),
    ensures
        m.dom().finite(),
        m.len() < n,
{
    lemma_below(n);
    assert(m.dom().subset_of(below(n).remove(x)));
    lemma_len_subset(m.dom(), below(n).remove(x));
}

/// As `lemma_room`, with two missing keys: there is room for one more
/// entry and still fewer than `n` in all.
proof fn lemma_room2<V>(m: Map<usize, V>, n: usize, x: usize, y: usize)
    requires
        forall|i: usize| #[trigger] m.contains_key(i) ==> i < n,
        x < n,
        y < n,
        x != y,
        !m.contains_key(x),
        !m.contains_key(y),
    ensures
        m.dom().finite(),
        m.len() + 1 < n,
{
    lemma_below(n);
    assert(m.dom().subset_of(below(n).remove(x).remove(y)));
    lemma_len_subset(m.dom(), below(n).remove(x).remove(y));
}

impl<T: Unif> State<T> {
    /// Creates an empty state.
    pub fn empty() -> (s: State<T>)
        ensures
            s.bindings() == Map::<usize, usize>::empty(),
            s.slots() == Map::<usize, T>::empty(),
            s.next_index() == 0,
    {
        State { bindings: BtMap::empty(), slots: BtMap::empty(), next_index: 0 }
    }

    /// Returns `true` if the variable is bound in the state.
    pub fn binds_var(&self, var: &Var) -> (b: bool)
        ensures
            b == self.binds_spec(*var),
    {
        match self.bindings.get(&var.index) {
            Some(slot) => self.slots.contains_key(slot),
            None => false,
        }
    }

    /// Returns a reference to the value bound to the variable in the state,
    /// or `None` if the variable is not bound.
    pub fn get<'a>(&'a self, var: &Var) -> (r: Option<&'a T>)
        ensures
            match r {
                Some(v) => self.get_spec(*var) == Some(*v),
                None => self.get_spec(*var) is None,
            },
    {
        match self.bindings.get(&var.index) {
            Some(slot) => self.slots.get(slot),
            None => None,
        }
    }

    /// Exactly the states `unify_val` returns: a fresh binding when the
    /// variable has no slot, a value for the slot when it has an empty
    /// one, and otherwise whatever unifying the existing value gives.
    pub open spec fn unify_val_post(self, v: Var, val: T, r: Seq<State<T>>) -> bool {
        match self.slot_of(v) {
            None => {
                &&& r.len() == 1
                &&& r[0].bindings() == self.bindings().insert(v.index(), v.index())
                &&& r[0].slots() == self.slots().insert(v.index(), val)
                &&& r[0].next_index() == self.next_index()
            },
            Some(s) => if self.slots().contains_key(s) {
                r == (if self.slots()[s].unifiable(val) {
                    seq![self]
                } else {
                    Seq::<State<T>>::empty()
                })
            } else {
                &&& r.len() == 1
                &&& r[0].bindings() == self.bindings()
                &&& r[0].slots() == self.slots().insert(s, val)
                &&& r[0].next_index() == self.next_index()
            },
        }
    }

    /// Attempts to unify a variable with a value.  If the variable is not bound,
    /// returns a new state containing a binding to the value.  If the variable is
    /// already bound, returns the unification of the two values.
    pub fn unify_val(&self, var: &Var, val: T) -> (r: PossibleStates<T>)
        requires
            var.index() < self.next_index(),
        ensures
            self.unify_val_post(*var, val, r@),
            forall|i: int|
                0 <= i < r@.len() ==> (#[trigger] r@[i]).next_index() == self.next_index(),
    {
        let slot_opt = self.bindings.get(&var.index);
        match slot_opt {
            Some(slot) => {
                match self.slots.get(slot) {
                    Some(existing) => existing.unify(&val, self),
                    None => {
                        proof {
                            use_type_invariant(&*self);
                            // the well-formedness facts speak of the spec
                            // accessors; restate them over the fields
                            assert(self.bindings() == self.bindings@);
                            assert(self.slots() == self.slots@);
                            assert(var.index() == var.index);
                            lemma_room(self.slots@, self.next_index, *slot);
                        }
                        let s2 = self.slots.insert(*slot, val).unwrap();
                        let st = State {
                            bindings: self.bindings.clone(),
                            slots: s2,
                            next_index: self.next_index,
                        };
                        vec![st]
                    },
                }
            },
            None => {
                proof {
                    use_type_invariant(&*self);
                    assert(self.bindings() == self.bindings@);
                    assert(self.slots() == self.slots@);
                    assert(var.index() == var.index);
                    lemma_room(self.bindings@, self.next_index, var.index);
                    assert(self.slots@.dom().subset_of(self.bindings@.dom()));
                    lemma_len_subset(self.slots@.dom(), self.bindings@.dom());
                    assert(!self.slots@.contains_key(var.index));
                }
                let b2 = self.bindings.insert(var.index, var.index).unwrap();
                let s2 = self.slots.insert(var.index, val).unwrap();
                let st = State { bindings: b2, slots: s2, next_index: self.next_index };
                vec![st]
            },
        }
    }

    /// Exactly the states `unify_var` returns, case by case over the two
    /// variables' slots.  When only one variable has a slot, the other
    /// comes to share it; when neither has one, a fresh shared slot is
    /// made; when both have one, the outcome depends on the two slots'
    /// values.
    pub open spec fn unify_var_post(self, v1: Var, v2: Var, r: Seq<State<T>>) -> bool {
        match (self.slot_of(v1), self.slot_of(v2)) {
            (Some(s1), Some(s2)) => {
                if self.slots().contains_key(s1) && self.slots().contains_key(s2) {
                    r == (if self.slots()[s1].unifiable(self.slots()[s2]) {
                        seq![self]
                    } else {
                        Seq::<State<T>>::empty()
                    })
                } else if self.slots().contains_key(s1) || self.slots().contains_key(s2) {
                    r == Seq::<State<T>>::empty()
                } else {
                    r == (if s1 == s2 {
                        seq![self]
                    } else {
                        Seq::<State<T>>::empty()
                    })
                }
            },
            (Some(s1), None) => {
                &&& r.len() == 1
                &&& r[0].bindings() == self.bindings().insert(v2.index(), s1)
                &&& r[0].slots() == self.slots()
                &&& r[0].next_index() == self.next_index()
            },
            (None, Some(s2)) => {
                &&& r.len() == 1
                &&& r[0].bindings() == self.bindings().insert(v1.index(), s2)
                &&& r[0].slots() == self.slots()
                &&& r[0].next_index() == self.next_index()
            },
            (None, None) => {
                &&& r.len() == 1
                &&& r[0].bindings() == self.bindings().insert(v1.index(), v1.index()).insert(
                    v2.index(),
                    v1.index(),
                )
                &&& r[0].slots() == self.slots()
                &&& r[0].next_index() == self.next_index()
            },
        }
    }

    /// Attempts to unify two variables.
    pub fn unify_var(&self, v1: &Var, v2: &Var) -> (r: PossibleStates<T>)
        requires
            v1.index() < self.next_index(),
            v2.index() < self.next_index(),
        ensures
            self.unify_var_post(*v1, *v2, r@),
            forall|i: int|
                0 <= i < r@.len() ==> (#[trigger] r@[i]).next_index() == self.next_index(),
    {
        let b1 = self.bindings.get(&v1.index);
        let b2 = self.bindings.get(&v2.index);
        match b1 {
            Some(s1) => {
                match b2 {
                    Some(s2) => {
                        let value1 = self.slots.get(s1);
                        let value2 = self.slots.get(s2);
                        match value1 {
                            Some(vv1) => {
                                match value2 {
                                    // both v1 and v2 are bound: unify the values
                                    Some(vv2) => vv1.unify(vv2, self),
                                    // v2 is aliased but unbound: failure
                                    None => Vec::new(),
                                }
                            },
                            None => {
                                match value2 {
                                    // v1 is aliased but unbound: failure
                                    Some(_vv2) => Vec::new(),
                                    // neither slot is bound: the slots must be equal
                                    None => if *s1 == *s2 {
                                        let res = vec![self.clone()];
                                        proof {
                                            assert(res@ =~= seq![*self]);
                                        }
                                        res
                                    } else {
                                        Vec::new()
                                    },
                                }
                            },
                        }
                    },
                    None => {
                        // v1 has a slot, v2 does not: v2 comes to share it
                        proof {
                            use_type_invariant(&*self);
                            // the well-formedness facts speak of the spec
                            // accessors; restate them over the fields
                            assert(self.bindings() == self.bindings@);
                            assert(self.slots() == self.slots@);
                            assert(v1.index() == v1.index && v2.index() == v2.index);
                            lemma_room(self.bindings@, self.next_index, v2.index);
                        }
                        let nb = self.bindings.insert(v2.index, *s1).unwrap();
                        let st = State {
                            bindings: nb,
                            slots: self.slots.clone(),
                            next_index: self.next_index,
                        };
                        vec![st]
                    },
                }
            },
            None => {
                match b2 {
                    Some(s2) => {
                        // v2 has a slot, v1 does not: v1 comes to share it
                        proof {
                            use_type_invariant(&*self);
                            // the well-formedness facts speak of the spec
                            // accessors; restate them over the fields
                            assert(self.bindings() == self.bindings@);
                            assert(self.slots() == self.slots@);
                            assert(v1.index() == v1.index && v2.index() == v2.index);
                            lemma_room(self.bindings@, self.next_index, v1.index);
                        }
                        let nb = self.bindings.insert(v1.index, *s2).unwrap();
                        let st = State {
                            bindings: nb,
                            slots: self.slots.clone(),
                            next_index: self.next_index,
                        };
                        vec![st]
                    },
                    None => {
                        // neither variable has a slot: share a fresh one
                        if v1.index == v2.index {
                            proof {
                                use_type_invariant(&*self);
                                assert(self.bindings() == self.bindings@);
                                assert(self.slots() == self.slots@);
                                assert(v1.index() == v1.index && v2.index() == v2.index);
                                lemma_room(self.bindings@, self.next_index, v1.index);
                            }
                            let nb = self.bindings.insert(v1.index, v1.index).unwrap();
                            let st = State {
                                bindings: nb,
                                slots: self.slots.clone(),
                                next_index: self.next_index,
                            };
                            proof {
                                assert(st.bindings() =~= self.bindings().insert(
                                    v1.index(),
                                    v1.index(),
                                ).insert(v2.index(), v1.index()));
                            }
                            vec![st]
                        } else {
                            proof {
                                use_type_invariant(&*self);
                                assert(self.bindings() == self.bindings@);
                                assert(self.slots() == self.slots@);
                                assert(v1.index() == v1.index && v2.index() == v2.index);
                                lemma_room2(self.bindings@, self.next_index, v1.index, v2.index);
                            }
                            let nb1 = self.bindings.insert(v1.index, v1.index).unwrap();
                            let nb = nb1.insert(v2.index, v1.index).unwrap();
                            let st = State {
                                bindings: nb,
                                slots: self.slots.clone(),
                                next_index: self.next_index,
                            };
                            vec![st]
                        }
                    },
                }
            },
        }
    }

    /// Creates a new variable and a new state with which it is usable.
    ///
    /// The variable carries the state's next index, and the new state's
    /// counter is one higher; the tables are unchanged, so the fresh
    /// variable is neither aliased nor bound, and every observation made
    /// of the old state still holds of the new one.
    pub fn make_var(&self) -> (r: (Var, State<T>))
        requires
            self.next_index() < usize::MAX,
        ensures
            r.0.index() == self.next_index(),
            r.1.next_index() == self.next_index() + 1,
            r.1.bindings() == self.bindings(),
            r.1.slots() == self.slots(),
            r.1.get_spec(r.0) is None,
            !r.1.binds_spec(r.0),
    {
        proof {
            use_type_invariant(&*self);
            assert(self.bindings() == self.bindings@);
            assert(self.slots() == self.slots@);
        }
        let var = Var { index: self.next_index };
        let state = State {
            bindings: self.bindings.clone(),
            slots: self.slots.clone(),
            next_index: self.next_index + 1,
        };
        (var, state)
    }
}

/// Law: when unifying a variable with a value succeeds, the variable is
/// bound to exactly that value in the resulting state.  This holds for
/// value types whose unification is equality, as it is for all the
/// atomic instances.
pub proof fn lemma_unify_val_binds<T: Unif>(s: State<T>, v: Var, x: T, r: Seq<State<T>>)
    requires
        forall|a: T, b: T| #[trigger] a.unifiable(b) <==> a == b,
        s.unify_val_post(v, x, r),
        r.len() == 1,
    ensures
        r[0].get_spec(v) == Some(x),
        r[0].binds_spec(v),
{
}

/// Law: unifying a variable once more with the value it is bound to
/// succeeds and changes nothing, while unifying it with a different
/// value fails; both for value types whose unification is equality.
pub proof fn lemma_unify_val_idempotent<T: Unif>(
    s: State<T>,
    v: Var,
    x: T,
    y: T,
    r1: Seq<State<T>>,
    r2: Seq<State<T>>,
)
    requires
        forall|a: T, b: T| #[trigger] a.unifiable(b) <==> a == b,
        s.unify_val_post(v, x, r1),
        r1.len() == 1,
        r1[0].unify_val_post(v, y, r2),
    ensures
        x == y ==> r2 == seq![r1[0]] && r2[0].get_spec(v) == Some(x),
        x != y ==> r2 == Seq::<State<T>>::empty(),
{
    lemma_unify_val_binds(s, v, x, r1);
}

/// Law: aliasing carries bindings across.  After unifying two variables
/// succeeds, and then unifying the first with a value succeeds, the
/// second variable is bound to that value as well; for value types
/// whose unification is equality.
pub proof fn lemma_alias_then_bind<T: Unif>(
    s: State<T>,
    a: Var,
    b: Var,
    x: T,
    r1: Seq<State<T>>,
    r2: Seq<State<T>>,
)
    requires
        forall|p: T, q: T| #[trigger] p.unifiable(q) <==> p == q,
        s.wf(),
        s.unify_var_post(a, b, r1),
        r1.len() == 1,
        r1[0].unify_val_post(a, x, r2),
        r2.len() == 1,
    ensures
        r2[0].get_spec(a) == Some(x),
        r2[0].get_spec(b) == Some(x),
{
}

/// Law: what a state says of a variable depends on its tables alone.
/// Every operation of this module takes its input state by shared
/// reference and builds fresh states, so an observation made of a state
/// before an operation still holds of that state after it.
pub proof fn lemma_observations_persist<T: Unif>(s1: State<T>, s2: State<T>)
    requires
        s1.bindings() == s2.bindings(),
        s1.slots() == s2.slots(),
    ensures
        forall|v: Var| #![trigger s1.get_spec(v)] s1.get_spec(v) == s2.get_spec(v),
        forall|v: Var| #![trigger s1.binds_spec(v)] s1.binds_spec(v) == s2.binds_spec(v),
{
}

impl<T> Clone for State<T> {
    /// The copy is equal to the original; the tables are shared.
    fn clone(&self) -> (r: Self)
        ensures
            r == *self,
    {
        proof {
            use_type_invariant(&*self);
        }
        State {
            bindings: self.bindings.clone(),
            slots: self.slots.clone(),
            next_index: self.next_index,
        }
    }
}

} // verus!
