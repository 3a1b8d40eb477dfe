use std::rc::Rc;
use koto_core::tuple::KTuple;
use koto_core::value::{KValue, DisplayContext, int_to_string};

fn ints(ns: &[i64]) -> KTuple {
    KTuple::from(ns.iter().map(|n| KValue::Int(*n)).collect())
}

fn elements(t: &KTuple) -> Vec<KValue> {
    let mut r = Vec::new();
    let mut i = 0;
    while let Some(v) = t.get(i) {
        r.push(v);
        i += 1;
    }
    r
}

#[test]
fn test_tuple_mem_size() {
    assert!(std::mem::size_of::<KTuple>() <= 16);
}

#[test]
fn test_value_mem_size() {
    assert!(std::mem::size_of::<KValue>() <= 16);
}

#[test]
fn sub_tuple_views_requested_elements() {
    let t = ints(&[0, 1, 2, 3, 4, 5, 6, 7, 8, 9]);
    let s = t.make_sub_tuple(2..8).unwrap();
    assert_eq!(
        elements(&s),
        vec![
            KValue::Int(2),
            KValue::Int(3),
            KValue::Int(4),
            KValue::Int(5),
            KValue::Int(6),
            KValue::Int(7)
        ]
    );
}

#[test]
fn sub_tuple_of_sub_tuple_composes() {
    // Slicing twice views the same elements as slicing once with the
    // composed bounds.
    let t = ints(&[0, 1, 2, 3, 4, 5, 6, 7, 8, 9]);
    let once = t.make_sub_tuple(3..7).unwrap();
    let twice = t.make_sub_tuple(2..9).unwrap().make_sub_tuple(1..5).unwrap();
    assert_eq!(elements(&once), elements(&twice));
}

#[test]
fn sub_tuple_out_of_bounds_is_none() {
    let t = ints(&[1, 2, 3]);
    assert!(t.make_sub_tuple(0..4).is_none());
    assert!(t.make_sub_tuple(2..1).is_none());
    assert!(t.make_sub_tuple(3..3).is_some());
}

#[test]
fn pop_front_adjusts_bounds() {
    let mut t = ints(&[1, 2, 3]);
    assert_eq!(t.pop_front(), Some(KValue::Int(1)));
    assert_eq!(t.pop_front(), Some(KValue::Int(2)));
    assert_eq!(t.pop_front(), Some(KValue::Int(3)));
    assert_eq!(t.pop_front(), None);
}

#[test]
fn pop_back_adjusts_bounds() {
    let mut t = ints(&[1, 2, 3]);
    assert_eq!(t.pop_back(), Some(KValue::Int(3)));
    assert_eq!(t.pop_back(), Some(KValue::Int(2)));
    assert_eq!(t.pop_back(), Some(KValue::Int(1)));
    assert_eq!(t.pop_back(), None);
}

#[test]
fn hashable_without_lists() {
    let t = KTuple::from(vec![
        KValue::Null,
        KValue::Bool(true),
        KValue::Int(7),
        KValue::Str(Rc::new(String::from("key"))),
    ]);
    assert!(t.is_hashable());
}

#[test]
fn not_hashable_with_list() {
    let t = KTuple::from(vec![
        KValue::Int(7),
        KValue::List(Rc::new(vec![KValue::Int(1)])),
    ]);
    assert!(!t.is_hashable());
}

#[test]
fn display_tuple() {
    let t = KTuple::from(vec![
        KValue::Int(1),
        KValue::Bool(true),
        KValue::Null,
        KValue::Str(Rc::new(String::from("hi"))),
        KValue::List(Rc::new(vec![KValue::Int(2), KValue::Int(3)])),
    ]);
    let mut ctx = DisplayContext::new();
    t.display(&mut ctx);
    assert_eq!(ctx.output, "(1, true, null, hi, [2, 3])");
}

#[test]
fn display_empty_tuple() {
    let t = KTuple::default();
    let mut ctx = DisplayContext::new();
    t.display(&mut ctx);
    assert_eq!(ctx.output, "()");
}

#[test]
fn int_to_string_edges() {
    assert_eq!(int_to_string(0), "0");
    assert_eq!(int_to_string(42), "42");
    assert_eq!(int_to_string(-1), "-1");
    assert_eq!(int_to_string(i64::MAX), "9223372036854775807");
    assert_eq!(int_to_string(i64::MIN), "-9223372036854775808");
}

#[test]
fn sliced_tuple_shares_storage_and_pops() {
    let t = ints(&[10, 20, 30, 40]);
    let mut s = t.make_sub_tuple(1..3).unwrap();
    assert_eq!(s.pop_front(), Some(KValue::Int(20)));
    assert_eq!(s.pop_back(), Some(KValue::Int(30)));
    assert_eq!(s.pop_back(), None);
    // the original tuple is unchanged
    assert_eq!(elements(&t).len(), 4);
}
