use rustdb::named_tuple::{Field, FieldType, Tuple};

#[test]
fn test_tuple_creation() {
    let tuple = Tuple::new(vec![
        ("id", FieldType::Integer, Field::Integer(1)),
        ("name", FieldType::String, Field::String(String::from("Alice"))),
        ("age", FieldType::Integer, Field::Integer(30)),
    ]);

    assert_eq!(tuple.field_count(), 3);
}

#[test]
fn test_tuple_get_field() {
    let tuple = Tuple::new(vec![
        ("id", FieldType::Integer, Field::Integer(1)),
        ("name", FieldType::String, Field::String(String::from("Bob"))),
        ("age", FieldType::Integer, Field::Integer(25)),
    ]);

    assert_eq!(tuple.get_field("id"), Some(&Field::Integer(1)));
    assert_eq!(tuple.get_field("name"), Some(&Field::String("Bob".to_string())));
    assert_eq!(tuple.get_field("age"), Some(&Field::Integer(25)));
    assert_eq!(tuple.get_field("non_existent"), None);
}

#[test]
fn test_tuple_set_field() {
    let mut tuple = Tuple::new(vec![
        ("id", FieldType::Integer, Field::Integer(1)),
        ("name", FieldType::String, Field::String(String::from("Charlie"))),
        ("age", FieldType::Integer, Field::Integer(35)),
    ]);

    assert!(tuple.set_field("age", Field::Integer(36)));
    assert_eq!(tuple.get_field("age"), Some(&Field::Integer(36)));

    assert!(tuple.set_field("name", Field::String("Charles".to_string())));
    assert_eq!(tuple.get_field("name"), Some(&Field::String("Charles".to_string())));

    assert!(!tuple.set_field("non_existent", Field::Integer(0)));
}

#[test]
fn test_tuple_field_names() {
    let tuple = Tuple::new(vec![
        ("id", FieldType::Integer, Field::Integer(1)),
        ("name", FieldType::String, Field::String(String::from("David"))),
        ("age", FieldType::Integer, Field::Integer(40)),
    ]);

    let field_names = tuple.field_names();
    assert_eq!(field_names, vec!["id", "name", "age"]);
}

#[test]
fn test_tuple_field_types() {
    let tuple = Tuple::new(vec![
        ("id", FieldType::Integer, Field::Integer(1)),
        ("name", FieldType::String, Field::String(String::from("Eve"))),
        ("age", FieldType::Integer, Field::Integer(28)),
    ]);

    let field_types = tuple.field_types();
    assert_eq!(field_types, vec![FieldType::Integer, FieldType::String, FieldType::Integer]);
}

#[test]
fn test_tuple_equality() {
    let tuple1 = Tuple::new(vec![
        ("id", FieldType::Integer, Field::Integer(1)),
        ("name", FieldType::String, Field::String(String::from("Frank"))),
        ("age", FieldType::Integer, Field::Integer(45)),
    ]);

    let tuple2 = Tuple::new(vec![
        ("id", FieldType::Integer, Field::Integer(1)),
        ("name", FieldType::String, Field::String(String::from("Frank"))),
        ("age", FieldType::Integer, Field::Integer(45)),
    ]);

    let tuple3 = Tuple::new(vec![
        ("id", FieldType::Integer, Field::Integer(2)),
        ("name", FieldType::String, Field::String(String::from("Grace"))),
        ("age", FieldType::Integer, Field::Integer(32)),
    ]);

    assert_eq!(tuple1, tuple2);
    assert_ne!(tuple1, tuple3);
}

#[test]
fn repeated_name_counts_once_and_keeps_the_later_value() {
    let tuple = Tuple::new(vec![
        ("id", FieldType::Integer, Field::Integer(1)),
        ("name", FieldType::String, Field::String(String::from("Heidi"))),
        ("id", FieldType::Integer, Field::Integer(7)),
    ]);

    assert_eq!(tuple.field_count(), 2);
    assert_eq!(tuple.get_field("id"), Some(&Field::Integer(7)));
    assert_eq!(tuple.field_names(), vec!["id", "name", "id"]);
    assert_eq!(
        tuple.field_types(),
        vec![FieldType::Integer, FieldType::String, FieldType::Integer]
    );
}

#[test]
fn empty_tuple_has_no_fields() {
    let tuple = Tuple::new(Vec::new());

    assert_eq!(tuple.field_count(), 0);
    assert_eq!(tuple.get_field("id"), None);
    assert!(tuple.field_names().is_empty());
    assert!(tuple.field_types().is_empty());
}

#[test]
fn set_field_may_change_the_type_of_a_field() {
    let mut tuple = Tuple::new(vec![("id", FieldType::Integer, Field::Integer(1))]);

    assert!(tuple.set_field("id", Field::String(String::from("one"))));
    assert_eq!(tuple.field_types(), vec![FieldType::String]);
    assert_eq!(tuple.field_count(), 1);
}

#[test]
fn set_field_on_unbound_name_changes_nothing() {
    let mut tuple = Tuple::new(vec![("id", FieldType::Integer, Field::Integer(1))]);
    let before = tuple.clone();

    assert!(!tuple.set_field("other", Field::Integer(2)));
    assert_eq!(tuple, before);
}

#[test]
fn field_from_integer_and_from_text() {
    assert_eq!(Field::from(42), Field::Integer(42));
    assert_eq!(Field::from("RustDB"), Field::String(String::from("RustDB")));
}
