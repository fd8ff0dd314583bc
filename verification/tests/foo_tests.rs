use foo_record::foo::AGE_MAX;
use foo_record::foo::Foo;

#[test]
fn create_valid() {
    let foo = Foo::new("Alice", "30").unwrap();
    assert_eq!(foo.name, "Alice");
    assert_eq!(foo.age(), 30);
}

#[test]
fn create_blank_name() {
    let err = Foo::new("", "30").unwrap_err();
    assert_eq!(err, "need non blank name");
}

#[test]
fn create_blank_age() {
    let err = Foo::new("Alice", "").unwrap_err();
    assert_eq!(err, "need non blank age");
}

#[test]
fn create_non_numeric_age() {
    let err = Foo::new("Alice", "abc").unwrap_err();
    assert!(!err.is_empty());
    assert_ne!(err, "need non blank name");
    assert_ne!(err, "need non blank age");
    assert_ne!(err, "invalid age");
    assert_ne!(err, "nobody's that old!");
}

#[test]
fn create_hard_limit() {
    let err = Foo::new("Alice", "255").unwrap_err();
    assert_eq!(err, "invalid age");
}

#[test]
fn create_soft_limit() {
    let err = Foo::new("Alice", "121").unwrap_err();
    assert_eq!(err, "nobody's that old!");
}

#[test]
fn create_soft_limit_boundary() {
    let foo = Foo::new("Alice", "120").unwrap();
    assert_eq!(foo.name, "Alice");
    assert_eq!(foo.age(), 120);
}

#[test]
fn create_age_zero() {
    let foo = Foo::new("Bob", "0").unwrap();
    assert_eq!(foo.name, "Bob");
    assert_eq!(foo.age(), 0);
}

#[test]
fn create_age_out_of_width() {
    let err = Foo::new("Alice", "256").unwrap_err();
    assert_eq!(err, "number too large to fit in target type");
}

#[test]
fn create_blank_name_wins_over_blank_age() {
    let err = Foo::new("", "").unwrap_err();
    assert_eq!(err, "need non blank name");
}

#[test]
fn age_max_value() {
    assert_eq!(AGE_MAX, 120);
}
