use rslogic::btmap::BtMap;

#[test]
fn test_empty() {
    let m: BtMap<i32> = BtMap::empty();
    assert!(m._len() == 0);
    assert!(m.get(&34).is_none());
    assert!(!m.contains_key(&34));
}

#[test]
fn test_nonempty() {
    let m: BtMap<String> = BtMap::empty();
    let m = m.insert(1234, "OneTwoThreeFour".to_string()).unwrap();
    let m = m.insert(5543, "FiveFiveFourThree".to_string()).unwrap();
    let m = m.insert(8876, "EightEightSevenSix".to_string()).unwrap();
    let m = m.insert(22, "TwentyTwo".to_string()).unwrap();

    assert!(m._len() == 4);
    assert!(m.get(&22).unwrap() == "TwentyTwo");
    assert!(m.get(&5543).unwrap() == "FiveFiveFourThree");
    assert!(m.get(&3332).is_none());
    assert!(m.contains_key(&22));
    assert!(!m.contains_key(&111));
}

#[test]
fn test_insert_duplicate() {
    let m: BtMap<i32> = BtMap::empty();
    let m = m.insert(7, 70).unwrap();
    assert!(m.insert(7, 71).is_err());
    assert!(m.get(&7).unwrap() == &70);
    assert!(m._len() == 1);
}

#[test]
fn test_insert_preserves_original() {
    let m: BtMap<i32> = BtMap::empty();
    let m1 = m.insert(1, 10).unwrap();
    let m2 = m1.insert(2, 20).unwrap();
    assert!(m._len() == 0);
    assert!(m.get(&1).is_none());
    assert!(m1._len() == 1);
    assert!(m1.get(&1).unwrap() == &10);
    assert!(m1.get(&2).is_none());
    assert!(m2._len() == 2);
    assert!(m2.get(&1).unwrap() == &10);
    assert!(m2.get(&2).unwrap() == &20);
}

#[test]
fn test_clone_same_entries() {
    let m: BtMap<i32> = BtMap::empty();
    let m = m.insert(3, 33).unwrap();
    let c = m.clone();
    assert!(c._len() == 1);
    assert!(c.get(&3).unwrap() == &33);
    assert!(c.get(&4).is_none());
}
