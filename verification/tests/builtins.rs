use minilang::data::gc::GC;
use minilang::data::objects::{OwnedObjectItem, Value};
use minilang::execution::arity::Arity;
use minilang::execution::builtins::{builtin_factory, check_arity, BuiltinError};

#[test]
fn registry_indexes_functions_in_insertion_order() {
    let map = builtin_factory();
    assert_eq!(map.get_builtin("sum"), Some(Value::Builtin(0)));
    assert_eq!(map.get_builtin("int"), Some(Value::Builtin(1)));
    assert_eq!(map.get_builtin("list"), Some(Value::Builtin(2)));
    assert_eq!(map.get_builtin("arity"), Some(Value::Builtin(3)));
    assert_eq!(map.get_builtin("is_vararg"), Some(Value::Builtin(4)));
    assert_eq!(map.get_builtin("missing"), None);
    assert_eq!(map.get_builtin_name(1), Some("int"));
    assert_eq!(map.get_builtin_name(5), None);
    assert_eq!(map.get_builtin_arity(0), Some(Arity::AtLeast(0)));
    assert_eq!(map.get_builtin_arity(3), Some(Arity::Exact(1)));
}

#[test]
fn registry_indexes_methods_by_class_and_name() {
    let map = builtin_factory();
    assert_eq!(map.find_method("Int", "abs"), Some((0, 0)));
    assert_eq!(map.find_method("Int", "_mod"), Some((0, 1)));
    assert_eq!(map.find_method("Int", "nope"), None);
    assert_eq!(map.find_method("String", "abs"), None);
    assert_eq!(map.get_method_name(0, 1), Some("Int._mod".to_string()));
    assert_eq!(map.get_method_name(1, 0), None);
    assert_eq!(map.get_method_arity(0, 0), Some(Arity::Exact(0)));
    assert_eq!(map.get_method_arity(0, 1), Some(Arity::Exact(1)));
    assert_eq!(map.get_method_arity(0, 2), None);
}

#[test]
fn check_arity_reports_both_numbers() {
    assert!(check_arity(Arity::Exact(2), 2).is_ok());
    assert!(check_arity(Arity::AtLeast(2), 5).is_ok());
    match check_arity(Arity::Exact(2), 3) {
        Err(BuiltinError::ArityMismatch { provided, expected }) => {
            assert_eq!(provided, 3);
            assert_eq!(expected, Arity::Exact(2));
        }
        _ => panic!("expected an arity mismatch"),
    }
    let e = BuiltinError::ArityMismatch { provided: 1, expected: Arity::AtLeast(2) };
    assert_eq!(e.to_string(), "expected at least 2 args but got 1");
}

#[test]
fn heap_reuses_no_live_slot() {
    let mut gc = GC::default_gc();
    let a = gc.store(OwnedObjectItem::Str("a".to_string()));
    let b = gc.store(OwnedObjectItem::Cell(Value::Int(3)));
    assert_eq!(a, Value::Str(0));
    assert_eq!(b, Value::Cell(1));
    assert!(matches!(gc.get(0), Some(OwnedObjectItem::Str(s)) if s == "a"));
    assert!(matches!(gc.get(1), Some(OwnedObjectItem::Cell(Value::Int(3)))));
    assert!(gc.get(2).is_none());
}
