use rslogic::state::State;

#[test]
fn test_fresh_var_unbound() {
    let s = State::<i32>::empty();
    let (a, s) = s.make_var();
    let (b, s) = s.make_var();
    assert!(s.get(&a).is_none());
    assert!(!s.binds_var(&a));
    assert!(s.get(&b).is_none());
    assert!(!s.binds_var(&b));
}

#[test]
fn test_unify_val_binds() {
    let s = State::<i32>::empty();
    let (v, s) = s.make_var();
    let r = s.unify_val(&v, 7);
    assert_eq!(r.len(), 1);
    assert_eq!(r[0].get(&v).unwrap(), &7);
    assert!(r[0].binds_var(&v));
}

#[test]
fn test_persistence() {
    let s = State::<i32>::empty();
    let (v, s) = s.make_var();
    let r = s.unify_val(&v, 5);
    assert_eq!(r.len(), 1);
    // the original state is untouched by the operation
    assert!(s.get(&v).is_none());
    assert!(!s.binds_var(&v));
    assert_eq!(r[0].get(&v).unwrap(), &5);
}

#[test]
fn test_reunify_idempotent() {
    let s = State::<i32>::empty();
    let (v, s) = s.make_var();
    let r1 = s.unify_val(&v, 5);
    assert_eq!(r1.len(), 1);
    let same = r1[0].unify_val(&v, 5);
    assert_eq!(same.len(), 1);
    assert_eq!(same[0].get(&v).unwrap(), &5);
    let different = r1[0].unify_val(&v, 6);
    assert_eq!(different.len(), 0);
}

#[test]
fn test_alias_then_bind() {
    let s = State::<i32>::empty();
    let (a, s) = s.make_var();
    let (b, s) = s.make_var();
    let r1 = s.unify_var(&a, &b);
    assert_eq!(r1.len(), 1);
    // aliased but not yet bound
    assert!(!r1[0].binds_var(&a));
    assert!(!r1[0].binds_var(&b));
    let r2 = r1[0].unify_val(&a, 9);
    assert_eq!(r2.len(), 1);
    assert_eq!(r2[0].get(&a).unwrap(), &9);
    assert_eq!(r2[0].get(&b).unwrap(), &9);
}

#[test]
fn test_unify_var_bound_values() {
    let s = State::<i32>::empty();
    let (a, s) = s.make_var();
    let (b, s) = s.make_var();
    let s1 = &s.unify_val(&a, 3)[0];
    let s2 = &s1.unify_val(&b, 3)[0];
    // both bound to equal values: success, state unchanged
    let ok = s2.unify_var(&a, &b);
    assert_eq!(ok.len(), 1);
    assert_eq!(ok[0].get(&a).unwrap(), &3);
    // bind a third variable to a different value: failure
    let (c, s3) = s2.make_var();
    let s4 = &s3.unify_val(&c, 4)[0];
    assert_eq!(s4.unify_var(&a, &c).len(), 0);
}

#[test]
fn test_unify_var_mixed_bound_fails() {
    let s = State::<i32>::empty();
    let (a, s) = s.make_var();
    let (b, s) = s.make_var();
    let (c, s) = s.make_var();
    // a is bound; b and c share an unbound slot
    let s1 = &s.unify_val(&a, 1)[0];
    let s2 = &s1.unify_var(&b, &c)[0];
    // one side bound, the other aliased but unbound: failure
    assert_eq!(s2.unify_var(&a, &b).len(), 0);
    assert_eq!(s2.unify_var(&b, &a).len(), 0);
}

#[test]
fn test_unify_var_self() {
    let s = State::<i32>::empty();
    let (a, s) = s.make_var();
    let r = s.unify_var(&a, &a);
    assert_eq!(r.len(), 1);
    // aliased with itself, still unbound
    assert!(!r[0].binds_var(&a));
    assert!(r[0].get(&a).is_none());
}
