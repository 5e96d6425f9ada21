use rslogic::goal::{conj, disj, fail, pred, unify_val, unify_vars, Goal};
use rslogic::state::State;

#[test]
fn test_bind_val() {
    let s = State::<i32>::empty();
    let (v, s) = s.make_var();

    let n: i32 = 34;
    let g = unify_val(&v, n);

    let results = g.eval(&s);
    assert_eq!(results.len(), 1);

    let val = results[0].get(&v).unwrap();
    assert_eq!(val, &n);
}

#[test]
fn test_bind_var() {
    let s = State::<i32>::empty();
    let (a, s) = s.make_var();
    let (b, s) = s.make_var();

    let n: i32 = 12;
    let g1 = unify_vars(&a, &b);
    let g2 = unify_val(&b, n);
    let g = conj(g1, g2);

    let results = g.eval(&s);
    assert_eq!(results.len(), 1);

    let val = results[0].get(&a).unwrap();
    assert_eq!(val, &n);
}

#[test]
fn test_conj_fail() {
    let s = State::<i32>::empty();
    let (v, s) = s.make_var();
    let g1 = unify_val(&v, 56);
    let g2 = fail::<i32>();
    let g = conj(g1, g2);

    let results = g.eval(&s);
    assert_eq!(results.len(), 0);
}

#[test]
fn test_disj_fail() {
    let s = State::<i32>::empty();
    let (v, s) = s.make_var();
    let g1 = fail::<i32>();
    let g2 = unify_val(&v, 43);
    let g = disj(g1, g2);

    let results = g.eval(&s);
    assert_eq!(results.len(), 1);

    let val = results[0].get(&v).unwrap();
    assert_eq!(val, &43);
}

#[test]
fn test_disj() {
    let s = State::<i32>::empty();
    let (a, s) = s.make_var();

    let g1 = unify_val(&a, 123);
    let g2 = unify_val(&a, 456);
    let g = disj(g1, g2);

    let results = g.eval(&s);
    assert_eq!(results.len(), 2);

    let val = results[0].get(&a).unwrap();
    assert_eq!(val, &123);

    let val = results[1].get(&a).unwrap();
    assert_eq!(val, &456);
}

#[test]
fn test_pred() {
    let s = State::<i32>::empty();
    let (a, s) = s.make_var();

    let d = disj(unify_val(&a, 123), unify_val(&a, 987));
    let f = |s: &State<i32>| match s.get(&a) {
        Some(n) => *n == 987,
        None => false,
    };
    let p = pred(&f);
    let g = conj(d, p);

    let results = g.eval(&s);
    assert_eq!(results.len(), 1);

    let val = results[0].get(&a).unwrap();
    assert_eq!(val, &987);
}

#[test]
fn test_conj_fail_first() {
    let s = State::<i32>::empty();
    let (v, s) = s.make_var();
    let g = conj(fail::<i32>(), unify_val(&v, 56));

    let results = g.eval(&s);
    assert_eq!(results.len(), 0);
}

#[test]
fn test_disj_fail_second() {
    let s = State::<i32>::empty();
    let (v, s) = s.make_var();
    let g = disj(unify_val(&v, 43), fail::<i32>());

    let results = g.eval(&s);
    assert_eq!(results.len(), 1);
    assert_eq!(results[0].get(&v).unwrap(), &43);
}

#[test]
fn test_disj_interleaves() {
    let s = State::<i32>::empty();
    let (a, s) = s.make_var();

    // the left side yields two states, the right side three
    let left = disj(unify_val(&a, 1), unify_val(&a, 2));
    let right = disj(disj(unify_val(&a, 3), unify_val(&a, 4)), unify_val(&a, 5));
    let g = disj(left, right);

    let results = g.eval(&s);
    assert_eq!(results.len(), 5);
    // the right side alone yields [3, 5, 4]; the merge takes one of
    // each side in turn and then what is left of the longer side
    let got: Vec<i32> = results.iter().map(|r| *r.get(&a).unwrap()).collect();
    assert_eq!(got, vec![1, 3, 2, 5, 4]);
}

#[test]
fn test_pred_rejects_all() {
    let s = State::<i32>::empty();
    let (a, s) = s.make_var();

    let d = disj(unify_val(&a, 1), unify_val(&a, 2));
    let f = |_s: &State<i32>| false;
    let g = conj(d, pred(&f));

    let results = g.eval(&s);
    assert_eq!(results.len(), 0);
}

#[test]
fn test_string_unification() {
    let s = State::<String>::empty();
    let (a, s) = s.make_var();

    let g = unify_val(&a, "hello".to_string());
    let results = g.eval(&s);
    assert_eq!(results.len(), 1);
    assert_eq!(results[0].get(&a).unwrap(), "hello");

    let clash = unify_val(&a, "world".to_string());
    assert_eq!(clash.eval(&results[0]).len(), 0);
    let again = unify_val(&a, "hello".to_string());
    assert_eq!(again.eval(&results[0]).len(), 1);
}
