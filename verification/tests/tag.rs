use mc_schems::{Compound, Tag};

#[test]
fn a_new_compound_is_empty() {
    let compound = Compound::new();
    assert!(compound.is_empty());
    assert_eq!(compound.len(), 0);
    assert!(!compound.contains_key("a"));
    assert_eq!(compound.get("a"), None);
}

#[test]
fn insert_appends_new_names_in_order() {
    let mut compound = Compound::new();
    compound.insert("b".to_string(), Tag::Int(1));
    compound.insert("a".to_string(), Tag::Short(2));
    assert_eq!(compound.len(), 2);
    assert!(!compound.is_empty());
    assert_eq!(compound.entries[0].name, "b");
    assert_eq!(compound.entries[1].name, "a");
    assert_eq!(compound.get("b"), Some(&Tag::Int(1)));
    assert_eq!(compound.get("a"), Some(&Tag::Short(2)));
    assert_eq!(compound.get("c"), None);
}

#[test]
fn insert_replaces_the_value_of_a_name_in_place() {
    let mut compound = Compound::new();
    compound.insert("a".to_string(), Tag::Int(1));
    compound.insert("b".to_string(), Tag::Int(2));
    compound.insert("a".to_string(), Tag::String("x".to_string()));
    assert_eq!(compound.len(), 2);
    assert_eq!(compound.entries[0].name, "a");
    assert_eq!(compound.get("a"), Some(&Tag::String("x".to_string())));
    assert_eq!(compound.get("b"), Some(&Tag::Int(2)));
}

#[test]
fn remove_takes_out_the_name_and_keeps_the_order() {
    let mut compound = Compound::new();
    compound.insert("a".to_string(), Tag::Int(1));
    compound.insert("b".to_string(), Tag::Int(2));
    compound.insert("c".to_string(), Tag::Int(3));
    compound.remove("b");
    assert_eq!(compound.len(), 2);
    assert!(!compound.contains_key("b"));
    assert_eq!(compound.entries[0].name, "a");
    assert_eq!(compound.entries[1].name, "c");
    compound.remove("b");
    assert_eq!(compound.len(), 2);
}

#[test]
fn a_clone_is_a_deep_copy() {
    let mut inner = Compound::new();
    inner.insert("list".to_string(), Tag::List(vec![Tag::Int(1), Tag::Int(2)]));
    inner.insert("bytes".to_string(), Tag::ByteArray(vec![-1, 0, 1]));
    inner.insert("other".to_string(), Tag::Other(nbt::Value::Long(-5)));
    let mut compound = Compound::new();
    compound.insert("inner".to_string(), Tag::Compound(inner));
    compound.insert("ints".to_string(), Tag::IntArray(vec![7, 8]));
    let copy = compound.clone();
    assert_eq!(copy, compound);
    let tag = Tag::Compound(compound);
    assert_eq!(tag.clone(), tag);
}
