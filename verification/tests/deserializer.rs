use std::collections::HashMap;

use hgame_launcher::deserializer::{Cell, DeserializeError, Deserializer, UnitOnlyVariantAccess};

fn strings(items: &[&str]) -> Vec<String> {
    items.iter().map(|s| s.to_string()).collect()
}

#[test]
fn new_starts_at_first_column() {
    let headers = strings(&["id", "name"]);
    let contents = strings(&["1", "abc"]);
    let d = Deserializer::new(&headers, &contents);
    assert_eq!(d.next_key_seed().map(|s| s.as_str()), Some("id"));
    assert_eq!(d.deserialize_string().unwrap(), "1");
}

#[test]
fn keys_and_values_walk_the_columns() {
    let headers = strings(&["id", "name"]);
    let contents = strings(&["1", "abc"]);
    let mut d = Deserializer::new(&headers, &contents);
    let mut pairs = Vec::new();
    while let Some(key) = d.next_key_seed() {
        let value = d.deserialize_string().unwrap();
        pairs.push((key.clone(), value));
        d.next_value_seed();
    }
    assert_eq!(
        pairs,
        vec![("id".to_string(), "1".to_string()), ("name".to_string(), "abc".to_string())]
    );
}

#[test]
fn any_reads_booleans_numbers_null_and_text() {
    let headers = strings(&["a", "b", "c", "d", "e", "f", "g", "h"]);
    let contents = strings(&["t", "f", "42", "-7", "", "yuzusoft", "2147483648", "tt"]);
    let mut d = Deserializer::new(&headers, &contents);
    let mut cells = Vec::new();
    for content in &contents {
        // the float test that std's parser gives for the cell
        cells.push(d.deserialize_any(content.parse::<f64>().is_ok()).unwrap());
        d.next_value_seed();
    }
    assert!(matches!(cells[0], Cell::Bool(true)));
    assert!(matches!(cells[1], Cell::Bool(false)));
    assert!(matches!(cells[2], Cell::I32(42)));
    assert!(matches!(cells[3], Cell::I32(-7)));
    assert!(matches!(cells[4], Cell::Null));
    assert!(matches!(&cells[5], Cell::Text(t) if t == "yuzusoft"));
    assert!(matches!(&cells[6], Cell::Float(t) if t == "2147483648"));
    assert!(matches!(&cells[7], Cell::Text(t) if t == "tt"));
}

#[test]
fn any_reads_floats_when_told() {
    let headers = strings(&["a", "b"]);
    let contents = strings(&["1.5", "12"]);
    let mut d = Deserializer::new(&headers, &contents);
    assert!(matches!(d.deserialize_any(true).unwrap(), Cell::Float(t) if t == "1.5"));
    d.next_value_seed();
    // an integer wins over a float
    assert!(matches!(d.deserialize_any(true).unwrap(), Cell::I32(12)));
}

#[test]
fn reading_past_the_row_is_an_error() {
    let headers = strings(&["a"]);
    let contents: Vec<String> = Vec::new();
    let d = Deserializer::new(&headers, &contents);
    assert!(matches!(d.deserialize_any(false), Err(DeserializeError::Parse(m)) if m == "No content"));
    assert!(matches!(d.deserialize_string(), Err(DeserializeError::Parse(m)) if m == "No content"));
    assert!(matches!(d.variant_seed(), Err(DeserializeError::Parse(m)) if m == "No content"));
    assert!(!d.deserialize_option());
}

#[test]
fn option_is_absent_for_empty_cells() {
    let headers = strings(&["a", "b"]);
    let contents = strings(&["", "x"]);
    let mut d = Deserializer::new(&headers, &contents);
    assert!(!d.deserialize_option());
    d.next_value_seed();
    assert!(d.deserialize_option());
}

#[test]
fn keys_end_after_the_last_header() {
    let headers = strings(&["a"]);
    let contents = strings(&["1", "2"]);
    let mut d = Deserializer::new(&headers, &contents);
    assert!(d.next_key_seed().is_some());
    d.next_value_seed();
    assert!(d.next_key_seed().is_none());
}

#[test]
fn variant_is_the_cell_text() {
    let headers = strings(&["kind"]);
    let contents = strings(&["CORPORATION"]);
    let d = Deserializer::new(&headers, &contents);
    assert_eq!(d.variant_seed().unwrap(), "CORPORATION");
}

#[test]
fn only_unit_variants_are_accepted() {
    assert!(UnitOnlyVariantAccess.unit_variant().is_ok());
    assert!(matches!(UnitOnlyVariantAccess.newtype_variant_seed(), DeserializeError::Unsupported(m) if m == "newtype variant"));
    assert!(matches!(UnitOnlyVariantAccess.tuple_variant(), DeserializeError::Unsupported(m) if m == "tuple variant"));
    assert!(matches!(UnitOnlyVariantAccess.struct_variant(), DeserializeError::Unsupported(m) if m == "struct variant"));
}

#[test]
fn custom_errors_carry_their_message() {
    let e = DeserializeError::custom("missing field `id`".to_string());
    assert!(matches!(e, DeserializeError::Message(m) if m == "missing field `id`"));
}

#[test]
fn custom_error_reads_as_its_message() {
    assert_eq!(DeserializeError::custom("boom".to_string()).message(), "Error: boom");
    assert_eq!(DeserializeError::Parse("No content".to_string()).message(), "Failed to parse: No content");
    assert_eq!(UnitOnlyVariantAccess.tuple_variant().message(), "Unsupported: tuple variant");
}

#[test]
fn row_reads_as_a_map_of_header_to_cell() {
    let headers = strings(&["id", "name", "id"]);
    let contents = strings(&["1", "abc", "2", "extra"]);
    let mut d = Deserializer::new(&headers, &contents);
    let pairs = d.deserialize_string_map().unwrap();
    assert_eq!(
        pairs,
        vec![
            ("id".to_string(), "1".to_string()),
            ("name".to_string(), "abc".to_string()),
            ("id".to_string(), "2".to_string()),
        ]
    );
    let map: HashMap<String, String> = pairs.into_iter().collect();
    assert_eq!(map.len(), 2);
    assert_eq!(map["id"], "2");
    assert_eq!(map["name"], "abc");
}

#[test]
fn short_row_fails_as_a_map() {
    let headers = strings(&["a", "b"]);
    let contents = strings(&["1"]);
    let mut d = Deserializer::new(&headers, &contents);
    assert!(matches!(d.deserialize_string_map(), Err(DeserializeError::Parse(m)) if m == "No content"));
}

#[test]
fn column_counts_the_values_read() {
    let headers = strings(&["a", "b", "c"]);
    let contents = strings(&["1", "2"]);
    let mut d = Deserializer::new(&headers, &contents);
    assert_eq!(d.column(), 0);
    let _ = d.next_key_seed();
    let _ = d.deserialize_any(false);
    let _ = d.deserialize_option();
    let _ = d.variant_seed();
    assert_eq!(d.column(), 0);
    d.next_value_seed();
    assert_eq!(d.column(), 1);
    // the walk fails at the missing third cell, after reading it
    assert!(d.deserialize_string_map().is_err());
    assert_eq!(d.column(), 3);

    let contents = strings(&["1", "2", "3", "4"]);
    let mut d = Deserializer::new(&headers, &contents);
    d.next_value_seed();
    let pairs = d.deserialize_string_map().unwrap();
    assert_eq!(pairs.len(), 2);
    assert_eq!(d.column(), 3);
}
