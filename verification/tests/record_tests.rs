use rustdb::tuple::{Field, RecordId, Tuple};

#[test]
fn new_tuple_keeps_its_fields_and_record_id() {
    let tuple = Tuple::new(
        None,
        vec![Field::Integer(42), Field::String("Hello, World!".to_string())],
    );

    assert_eq!(tuple.get_record_id(), None);
    assert_eq!(
        tuple.get_fields(),
        &vec![Field::Integer(42), Field::String("Hello, World!".to_string())]
    );
}

#[test]
fn set_record_id_replaces_the_record_id() {
    let mut tuple = Tuple::new(None, vec![Field::Integer(100)]);

    tuple.set_record_id(RecordId { page_number: 3, position: 9 });
    assert_eq!(tuple.get_record_id(), Some(&RecordId { page_number: 3, position: 9 }));

    tuple.set_record_id(RecordId { page_number: 4, position: 0 });
    assert_eq!(tuple.get_record_id(), Some(&RecordId { page_number: 4, position: 0 }));
    assert_eq!(tuple.get_fields(), &vec![Field::Integer(100)]);
}

#[test]
fn add_field_appends() {
    let mut tuple = Tuple::new(None, Vec::new());

    tuple.add_field(Field::Integer(1));
    tuple.add_field(Field::String("RustDB".to_string()));

    assert_eq!(tuple.get_fields().len(), 2);
    assert_eq!(tuple.get_field(0), Some(&Field::Integer(1)));
    assert_eq!(tuple.get_field(1), Some(&Field::String("RustDB".to_string())));
}

#[test]
fn get_field_past_the_end_is_none() {
    let tuple = Tuple::new(None, vec![Field::Integer(1)]);

    assert_eq!(tuple.get_field(1), None);
    assert_eq!(tuple.get_field(usize::MAX), None);
}

#[test]
fn field_as_text() {
    assert_eq!(Field::Integer(42).to_text(), "42");
    assert_eq!(Field::Integer(0).to_text(), "0");
    assert_eq!(Field::Integer(-7).to_text(), "-7");
    assert_eq!(Field::Integer(i32::MIN).to_text(), "-2147483648");
    assert_eq!(Field::Integer(i32::MAX).to_text(), "2147483647");
    assert_eq!(Field::String("RustDB".to_string()).to_text(), "\"RustDB\"");
    assert_eq!(Field::String(String::new()).to_text(), "\"\"");
}

#[test]
fn tuple_as_text() {
    let mut tuple = Tuple::new(
        None,
        vec![Field::Integer(42), Field::String("Hello, World!".to_string())],
    );
    assert_eq!(tuple.to_text(), "Tuple(No RecordId, 42, \"Hello, World!\")");

    tuple.set_record_id(RecordId { page_number: 3, position: 4000000000 });
    assert_eq!(tuple.to_text(), "Tuple(RecordId(3, 4000000000), 42, \"Hello, World!\")");

    let empty = Tuple::new(None, Vec::new());
    assert_eq!(empty.to_text(), "Tuple(No RecordId, )");

    let single = Tuple::new(None, vec![Field::Integer(-1)]);
    assert_eq!(single.to_text(), "Tuple(No RecordId, -1)");
}
