//! Logical goals.
//!
//! Goals are used to specify logical statements.  Evaluating a goal
//! against a state returns every state in which the statement holds; an
//! empty result means the statement cannot be satisfied.

use crate::state::{PossibleStates, State, Unif, Var};
use std::marker::PhantomData;
use vstd::prelude::*;

verus! {

/// Evaluate a `Goal` to produce zero or more `State`s, or
/// collections of variable bindings.
pub trait Goal<T: Unif>: Sized {
    /// Whether the goal can be evaluated against states whose
    /// fresh-variable counter is `next_index`: every variable the goal
    /// mentions must already have been created, and every predicate it
    /// holds must be callable.
    spec fn pre(self, next_index: usize) -> bool;

    /// The relation between an input state and an admissible sequence
    /// of successor states.
    spec fn post(self, s: State<T>, r: Seq<State<T>>) -> bool;

    /// Evaluates the goal against a state.  Goals never create
    /// variables: every returned state keeps the input state's counter.
    fn eval(&self, state: &State<T>) -> (r: PossibleStates<T>)
        requires
            self.pre(state.next_index()),
        ensures
            self.post(*state, r@),
            forall|i: int|
                0 <= i < r@.len() ==> (#[trigger] r@[i]).next_index() == state.next_index(),
    ;
}

/// Evaluating a `Fail` goal always results in zero states.
pub struct Fail<T> {
    pub _m: PhantomData<T>,
}

impl<T: Unif> Goal<T> for Fail<T> {
    open spec fn pre(self, next_index: usize) -> bool {
        true
    }

    open spec fn post(self, s: State<T>, r: Seq<State<T>>) -> bool {
        r == Seq::<State<T>>::empty()
    }

    fn eval(&self, state: &State<T>) -> (r: PossibleStates<T>) {
        let res: Vec<State<T>> = Vec::new();
        proof {
            assert(res@ =~= Seq::<State<T>>::empty());
        }
        res
    }
}

/// Creates a `Fail` goal.
pub fn fail<T: Unif>() -> Fail<T> {
    Fail { _m: PhantomData }
}

/// Evaluating a `UnifyVal` goal attempts to unify a variable and a value.
pub struct UnifyVal<T> {
    pub var: Var,
    pub val: T,
}

impl<T: Unif> Goal<T> for UnifyVal<T> {
    open spec fn pre(self, next_index: usize) -> bool {
        self.var.index() < next_index
    }

    open spec fn post(self, s: State<T>, r: Seq<State<T>>) -> bool {
        s.unify_val_post(self.var, self.val, r)
    }

    fn eval(&self, state: &State<T>) -> (r: PossibleStates<T>) {
        state.unify_val(&self.var, self.val.duplicate())
    }
}

/// Creates a `UnifyVal` goal that attempts to unify the variable and the value.
pub fn unify_val<T: Unif>(var: &Var, val: T) -> (g: UnifyVal<T>)
    ensures
        g.var == *var,
        g.val == val,
{
    UnifyVal { var: *var, val }
}

/// Evaluating a `UnifyVar` goal attempts to unify the variables.
pub struct UnifyVar<T> {
    pub v1: Var,
    pub v2: Var,
    pub _m: PhantomData<T>,
}

impl<T: Unif> Goal<T> for UnifyVar<T> {
    open spec fn pre(self, next_index: usize) -> bool {
        self.v1.index() < next_index && self.v2.index() < next_index
    }

    open spec fn post(self, s: State<T>, r: Seq<State<T>>) -> bool {
        s.unify_var_post(self.v1, self.v2, r)
    }

    fn eval(&self, state: &State<T>) -> (r: PossibleStates<T>) {
        state.unify_var(&self.v1, &self.v2)
    }
}

/// Creates a `UnifyVar` goal that attempts to unify the variables.
pub fn unify_vars<T: Unif>(v1: &Var, v2: &Var) -> (g: UnifyVar<T>)
    ensures
        g.v1 == *v1,
        g.v2 == *v2,
{
    UnifyVar { v1: *v1, v2: *v2, _m: PhantomData }
}

/// A `Conjunction` goal evaluates its sub-goal `a` using a given state,
/// then evaluates sub-goal `b` using the results, keeping the order of
/// `a`'s results and, within each, the order of `b`'s.
pub struct Conjunction<T, A, B> where T: Unif, A: Goal<T>, B: Goal<T> {
    pub a: A,
    pub b: B,
    pub _m: PhantomData<T>,
}

impl<T: Unif, A: Goal<T>, B: Goal<T>> Goal<T> for Conjunction<T, A, B> {
    open spec fn pre(self, next_index: usize) -> bool {
        self.a.pre(next_index) && self.b.pre(next_index)
    }

    open spec fn post(self, s: State<T>, r: Seq<State<T>>) -> bool {
        exists|ra: Seq<State<T>>, rbs: Seq<Seq<State<T>>>|
            #![trigger self.a.post(s, ra), rbs.flatten()]
            {
                &&& self.a.post(s, ra)
                &&& rbs.len() == ra.len()
                &&& (forall|i: int| 0 <= i < ra.len() ==> self.b.post(#[trigger] ra[i], rbs[i]))
                &&& r == rbs.flatten()
            }
    }

    fn eval(&self, state: &State<T>) -> (r: PossibleStates<T>) {
        let ra = self.a.eval(state);
        let ghost gra = ra@;
        let ghost mut grbs: Seq<Seq<State<T>>> = Seq::empty();
        let mut result: Vec<State<T>> = Vec::new();
        proof {
            assert(result@ =~= grbs.flatten());
        }
        let mut idx: usize = 0;
        while idx < ra.len()
            invariant
                idx <= ra.len(),
                ra@ == gra,
                grbs.len() == idx,
                forall|i: int| 0 <= i < idx ==> self.b.post(#[trigger] gra[i], grbs[i]),
                result@ == grbs.flatten(),
                self.b.pre(state.next_index()),
                forall|i: int|
                    0 <= i < gra.len() ==> (#[trigger] gra[i]).next_index() == state.next_index(),
                forall|i: int|
                    0 <= i < result@.len() ==> (#[trigger] result@[i]).next_index()
                        == state.next_index(),
            decreases ra.len() - idx,
        {
            let s = &ra[idx];
            let mut rb = self.b.eval(s);
            proof {
                broadcast use Seq::lemma_flatten_push;

                grbs = grbs.push(rb@);
            }
            result.append(&mut rb);
            idx = idx + 1;
        }
        proof {
            assert(self.post(*state, result@)) by {
                assert(self.a.post(*state, gra) && grbs.len() == gra.len() && (forall|i: int|
                    0 <= i < gra.len() ==> self.b.post(#[trigger] gra[i], grbs[i])) && result@
                    == grbs.flatten());
            }
        }
        result
    }
}

/// Creates a `Conjunction` goal which returns the conjunction (logical AND) of evaluating the two sub-goals.
pub fn conj<T: Unif, A: Goal<T>, B: Goal<T>>(a: A, b: B) -> (g: Conjunction<T, A, B>)
    ensures
        g.a == a,
        g.b == b,
{
    Conjunction { a, b, _m: PhantomData }
}

/// The fair merge of two sequences: one element of each in turn, and
/// whatever is left of the longer one appended in order.
pub open spec fn interleave<A>(a: Seq<A>, b: Seq<A>) -> Seq<A>
    decreases a.len() + b.len(),
{
    if a.len() == 0 {
        b
    } else if b.len() == 0 {
        a
    } else {
        seq![a[0], b[0]] + interleave(a.drop_first(), b.drop_first())
    }
}

/// What is left of `s` after its first `i` elements.
spec fn seq_rest<A>(s: Seq<A>, i: int) -> Seq<A> {
    if 0 <= i < s.len() {
        s.skip(i)
    } else {
        Seq::empty()
    }
}

proof fn lemma_seq_rest_unfold<A>(s: Seq<A>, i: int)
    requires
        0 <= i < s.len(),
    ensures
        seq_rest(s, i) == seq![s[i]] + seq_rest(s, i + 1),
        seq_rest(s, i).len() == s.len() - i,
{
    assert(seq_rest(s, i) =~= seq![s[i]] + seq_rest(s, i + 1));
}

/// Evaluating a `Disjunction` goal returns all the possible states of
/// evaluating `a` and `b`, interleaved fairly.
pub struct Disjunction<T, A, B> where T: Unif, A: Goal<T>, B: Goal<T> {
    pub a: A,
    pub b: B,
    pub _m: PhantomData<T>,
}

impl<T: Unif, A: Goal<T>, B: Goal<T>> Goal<T> for Disjunction<T, A, B> {
    open spec fn pre(self, next_index: usize) -> bool {
        self.a.pre(next_index) && self.b.pre(next_index)
    }

    open spec fn post(self, s: State<T>, r: Seq<State<T>>) -> bool {
        exists|ra: Seq<State<T>>, rb: Seq<State<T>>|
            #![trigger self.a.post(s, ra), self.b.post(s, rb)]
            {
                &&& self.a.post(s, ra)
                &&& self.b.post(s, rb)
                &&& r == interleave(ra, rb)
            }
    }

    fn eval(&self, state: &State<T>) -> (r: PossibleStates<T>) {
        let ra = self.a.eval(state);
        let rb = self.b.eval(state);
        let ghost gra = ra@;
        let ghost grb = rb@;
        let mut result: Vec<State<T>> = Vec::new();
        proof {
            assert(seq_rest(gra, 0) =~= gra);
            assert(seq_rest(grb, 0) =~= grb);
            assert(result@ + interleave(gra, grb) =~= interleave(gra, grb));
        }
        let mut idx: usize = 0;
        while idx < ra.len() || idx < rb.len()
            invariant
                ra@ == gra,
                rb@ == grb,
                idx <= gra.len() || idx <= grb.len(),
                result@ + interleave(seq_rest(gra, idx as int), seq_rest(grb, idx as int))
                    == interleave(gra, grb),
                forall|i: int|
                    0 <= i < gra.len() ==> (#[trigger] gra[i]).next_index() == state.next_index(),
                forall|i: int|
                    0 <= i < grb.len() ==> (#[trigger] grb[i]).next_index() == state.next_index(),
                forall|i: int|
                    0 <= i < result@.len() ==> (#[trigger] result@[i]).next_index()
                        == state.next_index(),
            decreases gra.len() + grb.len() - idx,
        {
            let ghost pre_rest_a = seq_rest(gra, idx as int);
            let ghost pre_rest_b = seq_rest(grb, idx as int);
            proof {
                if idx < gra.len() {
                    lemma_seq_rest_unfold(gra, idx as int);
                }
                if idx < grb.len() {
                    lemma_seq_rest_unfold(grb, idx as int);
                }
            }
            if idx < ra.len() {
                result.push(ra[idx].clone());
            }
            if idx < rb.len() {
                result.push(rb[idx].clone());
            }
            proof {
                let post_rest_a = seq_rest(gra, idx + 1);
                let post_rest_b = seq_rest(grb, idx + 1);
                if idx < gra.len() && idx < grb.len() {
                    assert(pre_rest_a.drop_first() =~= post_rest_a);
                    assert(pre_rest_b.drop_first() =~= post_rest_b);
                    let ai = gra[idx as int];
                    let bi = grb[idx as int];
                    assert(interleave(pre_rest_a, pre_rest_b) == seq![ai, bi] + interleave(
                        post_rest_a,
                        post_rest_b,
                    ));
                    assert(result@ + interleave(post_rest_a, post_rest_b) =~= interleave(
                        gra,
                        grb,
                    ));
                } else if idx < gra.len() {
                    assert(pre_rest_b =~= Seq::<State<T>>::empty());
                    assert(interleave(pre_rest_a, pre_rest_b) == pre_rest_a);
                    assert(interleave(post_rest_a, post_rest_b) == post_rest_a);
                    assert(result@ + interleave(post_rest_a, post_rest_b) =~= interleave(
                        gra,
                        grb,
                    ));
                } else {
                    assert(pre_rest_a =~= Seq::<State<T>>::empty());
                    assert(interleave(pre_rest_a, pre_rest_b) == pre_rest_b);
                    assert(interleave(post_rest_a, post_rest_b) == post_rest_b);
                    assert(result@ + interleave(post_rest_a, post_rest_b) =~= interleave(
                        gra,
                        grb,
                    ));
                }
            }
            idx = idx + 1;
        }
        proof {
            assert(seq_rest(gra, idx as int) =~= Seq::<State<T>>::empty());
            assert(seq_rest(grb, idx as int) =~= Seq::<State<T>>::empty());
            assert(result@ =~= interleave(gra, grb));
            assert(self.post(*state, result@)) by {
                assert(self.a.post(*state, gra) && self.b.post(*state, grb) && result@
                    == interleave(gra, grb));
            }
        }
        result
    }
}

/// Creates a `Disjunction` goal which returns the disjunction (logical OR) of evaluating the two sub-goals.
pub fn disj<T: Unif, A: Goal<T>, B: Goal<T>>(a: A, b: B) -> (g: Disjunction<T, A, B>)
    ensures
        g.a == a,
        g.b == b,
{
    Disjunction { a, b, _m: PhantomData }
}

/// Evaluating a `Predicate` goal returns the given state only if the function returns `true`.
pub struct Predicate<'a, T, F> where F: Fn(&State<T>) -> bool {
    pub f: &'a F,
    pub _m: PhantomData<T>,
}

impl<'a, T: Unif, F: Fn(&State<T>) -> bool> Goal<T> for Predicate<'a, T, F> {
    open spec fn pre(self, next_index: usize) -> bool {
        forall|s: State<T>| call_requires(*self.f, (&s,))
    }

    open spec fn post(self, s: State<T>, r: Seq<State<T>>) -> bool {
        exists|c: bool|
            #[trigger] call_ensures(*self.f, (&s,), c) && r == (if c {
                seq![s]
            } else {
                Seq::<State<T>>::empty()
            })
    }

    fn eval(&self, state: &State<T>) -> (r: PossibleStates<T>) {
        let f = self.f;
        if f(state) {
            let res = vec![state.clone()];
            proof {
                assert(res@ =~= seq![*state]);
            }
            res
        } else {
            let res: Vec<State<T>> = Vec::new();
            proof {
                assert(res@ =~= Seq::<State<T>>::empty());
            }
            res
        }
    }
}

/// Creates a `Predicate` goal that filters a set of possible states with the given function.
pub fn pred<'a, T: Unif, F: Fn(&State<T>) -> bool>(f: &'a F) -> (g: Predicate<'a, T, F>)
    ensures
        g.f == f,
{
    Predicate { f, _m: PhantomData }
}

impl Unif for bool {
    open spec fn unifiable(self, other: bool) -> bool {
        self == other
    }

    fn unify(&self, other: &bool, prev: &State<bool>) -> (r: PossibleStates<bool>) {
        if *self == *other {
            let res = vec![prev.clone()];
            proof {
                assert(res@ =~= seq![*prev]);
            }
            res
        } else {
            let res: Vec<State<bool>> = Vec::new();
            proof {
                assert(res@ =~= Seq::<State<bool>>::empty());
            }
            res
        }
    }

    fn duplicate(&self) -> (r: bool) {
        *self
    }
}

impl Unif for char {
    open spec fn unifiable(self, other: char) -> bool {
        self == other
    }

    fn unify(&self, other: &char, prev: &State<char>) -> (r: PossibleStates<char>) {
        if *self == *other {
            let res = vec![prev.clone()];
            proof {
                assert(res@ =~= seq![*prev]);
            }
            res
        } else {
            let res: Vec<State<char>> = Vec::new();
            proof {
                assert(res@ =~= Seq::<State<char>>::empty());
            }
            res
        }
    }

    fn duplicate(&self) -> (r: char) {
        *self
    }
}

impl Unif for i8 {
    open spec fn unifiable(self, other: i8) -> bool {
        self == other
    }

    fn unify(&self, other: &i8, prev: &State<i8>) -> (r: PossibleStates<i8>) {
        if *self == *other {
            let res = vec![prev.clone()];
            proof {
                assert(res@ =~= seq![*prev]);
            }
            res
        } else {
            let res: Vec<State<i8>> = Vec::new();
            proof {
                assert(res@ =~= Seq::<State<i8>>::empty());
            }
            res
        }
    }

    fn duplicate(&self) -> (r: i8) {
        *self
    }
}

impl Unif for i16 {
    open spec fn unifiable(self, other: i16) -> bool {
        self == other
    }

    fn unify(&self, other: &i16, prev: &State<i16>) -> (r: PossibleStates<i16>) {
        if *self == *other {
            let res = vec![prev.clone()];
            proof {
                assert(res@ =~= seq![*prev]);
            }
            res
        } else {
            let res: Vec<State<i16>> = Vec::new();
            proof {
                assert(res@ =~= Seq::<State<i16>>::empty());
            }
            res
        }
    }

    fn duplicate(&self) -> (r: i16) {
        *self
    }
}

impl Unif for i32 {
    open spec fn unifiable(self, other: i32) -> bool {
        self == other
    }

    fn unify(&self, other: &i32, prev: &State<i32>) -> (r: PossibleStates<i32>) {
        if *self == *other {
            let res = vec![prev.clone()];
            proof {
                assert(res@ =~= seq![*prev]);
            }
            res
        } else {
            let res: Vec<State<i32>> = Vec::new();
            proof {
                assert(res@ =~= Seq::<State<i32>>::empty());
            }
            res
        }
    }

    fn duplicate(&self) -> (r: i32) {
        *self
    }
}

impl Unif for i64 {
    open spec fn unifiable(self, other: i64) -> bool {
        self == other
    }

    fn unify(&self, other: &i64, prev: &State<i64>) -> (r: PossibleStates<i64>) {
        if *self == *other {
            let res = vec![prev.clone()];
            proof {
                assert(res@ =~= seq![*prev]);
            }
            res
        } else {
            let res: Vec<State<i64>> = Vec::new();
            proof {
                assert(res@ =~= Seq::<State<i64>>::empty());
            }
            res
        }
    }

    fn duplicate(&self) -> (r: i64) {
        *self
    }
}

impl Unif for isize {
    open spec fn unifiable(self, other: isize) -> bool {
        self == other
    }

    fn unify(&self, other: &isize, prev: &State<isize>) -> (r: PossibleStates<isize>) {
        if *self == *other {
            let res = vec![prev.clone()];
            proof {
                assert(res@ =~= seq![*prev]);
            }
            res
        } else {
            let res: Vec<State<isize>> = Vec::new();
            proof {
                assert(res@ =~= Seq::<State<isize>>::empty());
            }
            res
        }
    }

    fn duplicate(&self) -> (r: isize) {
        *self
    }
}

impl Unif for u8 {
    open spec fn unifiable(self, other: u8) -> bool {
        self == other
    }

    fn unify(&self, other: &u8, prev: &State<u8>) -> (r: PossibleStates<u8>) {
        if *self == *other {
            let res = vec![prev.clone()];
            proof {
                assert(res@ =~= seq![*prev]);
            }
            res
        } else {
            let res: Vec<State<u8>> = Vec::new();
            proof {
                assert(res@ =~= Seq::<State<u8>>::empty());
            }
            res
        }
    }

    fn duplicate(&self) -> (r: u8) {
        *self
    }
}

impl Unif for u16 {
    open spec fn unifiable(self, other: u16) -> bool {
        self == other
    }

    fn unify(&self, other: &u16, prev: &State<u16>) -> (r: PossibleStates<u16>) {
        if *self == *other {
            let res = vec![prev.clone()];
            proof {
                assert(res@ =~= seq![*prev]);
            }
            res
        } else {
            let res: Vec<State<u16>> = Vec::new();
            proof {
                assert(res@ =~= Seq::<State<u16>>::empty());
            }
            res
        }
    }

    fn duplicate(&self) -> (r: u16) {
        *self
    }
}

impl Unif for u32 {
    open spec fn unifiable(self, other: u32) -> bool {
        self == other
    }

    fn unify(&self, other: &u32, prev: &State<u32>) -> (r: PossibleStates<u32>) {
        if *self == *other {
            let res = vec![prev.clone()];
            proof {
                assert(res@ =~= seq![*prev]);
            }
            res
        } else {
            let res: Vec<State<u32>> = Vec::new();
            proof {
                assert(res@ =~= Seq::<State<u32>>::empty());
            }
            res
        }
    }

    fn duplicate(&self) -> (r: u32) {
        *self
    }
}

impl Unif for u64 {
    open spec fn unifiable(self, other: u64) -> bool {
        self == other
    }

    fn unify(&self, other: &u64, prev: &State<u64>) -> (r: PossibleStates<u64>) {
        if *self == *other {
            let res = vec![prev.clone()];
            proof {
                assert(res@ =~= seq![*prev]);
            }
            res
        } else {
            let res: Vec<State<u64>> = Vec::new();
            proof {
                assert(res@ =~= Seq::<State<u64>>::empty());
            }
            res
        }
    }

    fn duplicate(&self) -> (r: u64) {
        *self
    }
}

impl Unif for usize {
    open spec fn unifiable(self, other: usize) -> bool {
        self == other
    }

    fn unify(&self, other: &usize, prev: &State<usize>) -> (r: PossibleStates<usize>) {
        if *self == *other {
            let res = vec![prev.clone()];
            proof {
                assert(res@ =~= seq![*prev]);
            }
            res
        } else {
            let res: Vec<State<usize>> = Vec::new();
            proof {
                assert(res@ =~= Seq::<State<usize>>::empty());
            }
            res
        }
    }

    fn duplicate(&self) -> (r: usize) {
        *self
    }
}

impl Unif for String {
    open spec fn unifiable(self, other: String) -> bool {
        self@ == other@
    }

    fn unify(&self, other: &String, prev: &State<String>) -> (r: PossibleStates<String>) {
        if *self == *other {
            let res = vec![prev.clone()];
            proof {
                assert(res@ =~= seq![*prev]);
            }
            res
        } else {
            let res: Vec<State<String>> = Vec::new();
            proof {
                assert(res@ =~= Seq::<State<String>>::empty());
            }
            res
        }
    }

    fn duplicate(&self) -> (r: String) {
        self.clone()
    }
}


/// All the parts of a flattened sequence being empty, the whole is empty.
proof fn lemma_flatten_all_empty<A>(ss: Seq<Seq<A>>)
    requires
        forall|i: int| 0 <= i < ss.len() ==> (#[trigger] ss[i]).len() == 0,
    ensures
        ss.flatten().len() == 0,
    decreases ss.len(),
{
    if ss.len() > 0 {
        assert(ss.first().len() == 0);
        assert(forall|i: int|
            0 <= i < ss.drop_first().len() ==> (#[trigger] ss.drop_first()[i]).len() == 0);
        lemma_flatten_all_empty(ss.drop_first());
    }
}

/// Law: a conjunction whose first part is `Fail` yields no states,
/// whatever its second part and the state.
pub proof fn lemma_conj_fail_annuls<T: Unif, B: Goal<T>>(
    c: Conjunction<T, Fail<T>, B>,
    s: State<T>,
    r: Seq<State<T>>,
)
    requires
        c.post(s, r),
    ensures
        r.len() == 0,
{
    let (ra, rbs) = choose|ra: Seq<State<T>>, rbs: Seq<Seq<State<T>>>|
        #![trigger c.a.post(s, ra), rbs.flatten()]
        {
            &&& c.a.post(s, ra)
            &&& rbs.len() == ra.len()
            &&& (forall|i: int| 0 <= i < ra.len() ==> c.b.post(#[trigger] ra[i], rbs[i]))
            &&& r == rbs.flatten()
        };
    assert(rbs =~= Seq::<Seq<State<T>>>::empty());
    assert(rbs.flatten() =~= Seq::<State<T>>::empty());
}

/// Law: a conjunction whose second part is `Fail` yields no states as
/// well, whatever its first part and the state.
pub proof fn lemma_conj_fail_annuls_right<T: Unif, A: Goal<T>>(
    c: Conjunction<T, A, Fail<T>>,
    s: State<T>,
    r: Seq<State<T>>,
)
    requires
        c.post(s, r),
    ensures
        r.len() == 0,
{
    let (ra, rbs) = choose|ra: Seq<State<T>>, rbs: Seq<Seq<State<T>>>|
        #![trigger c.a.post(s, ra), rbs.flatten()]
        {
            &&& c.a.post(s, ra)
            &&& rbs.len() == ra.len()
            &&& (forall|i: int| 0 <= i < ra.len() ==> c.b.post(#[trigger] ra[i], rbs[i]))
            &&& r == rbs.flatten()
        };
    assert forall|i: int| 0 <= i < rbs.len() implies (#[trigger] rbs[i]).len() == 0 by {
        assert(c.b.post(ra[i], rbs[i]));
    };
    lemma_flatten_all_empty(rbs);
}

/// Law: a disjunction whose first part is `Fail` returns exactly what
/// its second part returns for the same state.
pub proof fn lemma_disj_fail_identity<T: Unif, B: Goal<T>>(
    d: Disjunction<T, Fail<T>, B>,
    s: State<T>,
    r: Seq<State<T>>,
)
    requires
        d.post(s, r),
    ensures
        d.b.post(s, r),
{
    let (ra, rb) = choose|ra: Seq<State<T>>, rb: Seq<State<T>>|
        #![trigger d.a.post(s, ra), d.b.post(s, rb)]
        {
            &&& d.a.post(s, ra)
            &&& d.b.post(s, rb)
            &&& r == interleave(ra, rb)
        };
    assert(interleave(ra, rb) == rb);
}

/// Law: a disjunction whose second part is `Fail` returns exactly what
/// its first part returns for the same state.
pub proof fn lemma_disj_fail_identity_right<T: Unif, A: Goal<T>>(
    d: Disjunction<T, A, Fail<T>>,
    s: State<T>,
    r: Seq<State<T>>,
)
    requires
        d.post(s, r),
    ensures
        d.a.post(s, r),
{
    let (ra, rb) = choose|ra: Seq<State<T>>, rb: Seq<State<T>>|
        #![trigger d.a.post(s, ra), d.b.post(s, rb)]
        {
            &&& d.a.post(s, ra)
            &&& d.b.post(s, rb)
            &&& r == interleave(ra, rb)
        };
    if ra.len() == 0 {
        assert(interleave(ra, rb) =~= ra);
    } else {
        assert(interleave(ra, rb) == ra);
    }
}

/// Law: the merge a disjunction makes is fair.  With two results on the
/// left and three on the right it takes one of each in turn, then
/// appends what is left of the longer side, in order.
pub proof fn lemma_interleave_two_three<A>(a0: A, a1: A, b0: A, b1: A, b2: A)
    ensures
        interleave(seq![a0, a1], seq![b0, b1, b2]) == seq![a0, b0, a1, b1, b2],
{
    let a = seq![a0, a1];
    let b = seq![b0, b1, b2];
    assert(a.drop_first() =~= seq![a1]);
    assert(b.drop_first() =~= seq![b1, b2]);
    assert(seq![a1].drop_first() =~= Seq::<A>::empty());
    assert(seq![b1, b2].drop_first() =~= seq![b2]);
    assert(interleave(Seq::<A>::empty(), seq![b2]) == seq![b2]);
    assert(interleave(seq![a1], seq![b1, b2]) =~= seq![a1, b1, b2]);
    assert(interleave(a, b) =~= seq![a0, b0, a1, b1, b2]);
}

} // verus!
