use todo_backend::codec::{decode, encode};
use todo_backend::todo::{Priority, Todo};

#[test]
fn test_new_todo() {
    let todo = Todo::new(1, "Test Todo".to_string(), Priority::High);
    assert_eq!(todo.id, 1);
    assert_eq!(todo.description, "Test Todo");
    assert_eq!(todo.is_completed, false);
    assert_eq!(todo.priority, Priority::High);
    assert!(todo.tags.is_empty());
}

#[test]
fn test_add_tag() {
    let mut todo = Todo::new(1, "Test Todo".to_string(), Priority::Medium);
    todo.add_tag("urgent".to_string());
    assert_eq!(todo.tags, vec!["urgent"]);
}

#[test]
fn test_remove_tag() {
    let mut todo = Todo::new(1, "Test Todo".to_string(), Priority::Medium);
    todo.add_tag("urgent".to_string());
    todo.add_tag("home".to_string());
    todo.remove_tag("urgent");
    assert_eq!(todo.tags, vec!["home"]);
}

#[test]
fn test_to_bytes_and_from_bytes() {
    let todo = Todo::new(1, "Test Todo".to_string(), Priority::Low);
    let bytes = encode(&todo);
    let decoded_todo = decode(&bytes).unwrap();
    assert_eq!(todo, decoded_todo);
}

#[test]
fn default_priority_is_medium() {
    assert_eq!(Priority::default(), Priority::Medium);
}

#[test]
fn duplicate_tags_are_kept_and_all_removed() {
    let mut todo = Todo::new(2, "x".to_string(), Priority::Low);
    todo.add_tag("urgent".to_string());
    todo.add_tag("home".to_string());
    todo.add_tag("urgent".to_string());
    assert_eq!(todo.tags, vec!["urgent", "home", "urgent"]);
    todo.remove_tag("urgent");
    assert_eq!(todo.tags, vec!["home"]);
    todo.remove_tag("absent");
    assert_eq!(todo.tags, vec!["home"]);
}

#[test]
fn round_trip_full_record() {
    let mut todo = Todo::new(u32::MAX, "Grüße, 世界 🚀".to_string(), Priority::High);
    todo.is_completed = true;
    todo.add_tag("".to_string());
    todo.add_tag("ünï".to_string());
    todo.add_tag("ünï".to_string());
    let bytes = encode(&todo);
    assert_eq!(decode(&bytes), Some(todo));
}

#[test]
fn encoding_layout() {
    let mut todo = Todo::new(0x01020304, "ab".to_string(), Priority::High);
    todo.add_tag("c".to_string());
    let bytes = encode(&todo);
    let expected: Vec<u8> = vec![
        4, 3, 2, 1, 0, 2, 2, 0, 0, 0, 0, 0, 0, 0, b'a', b'b', 1, 0, 0, 0, 0, 0, 0, 0, 1, 0, 0, 0,
        0, 0, 0, 0, b'c',
    ];
    assert_eq!(bytes, expected);
}

#[test]
fn decode_rejects_malformed_input() {
    let todo = Todo::new(7, "desc".to_string(), Priority::Medium);
    let bytes = encode(&todo);
    assert_eq!(decode(&Vec::new()), None);
    assert_eq!(decode(&bytes[..bytes.len() - 1].to_vec()), None);
    let mut longer = bytes.clone();
    longer.push(0);
    assert_eq!(decode(&longer), None);
    let mut bad_flag = bytes.clone();
    bad_flag[4] = 2;
    assert_eq!(decode(&bad_flag), None);
    let mut bad_priority = bytes.clone();
    bad_priority[5] = 3;
    assert_eq!(decode(&bad_priority), None);
    let mut bad_utf8 = bytes.clone();
    bad_utf8[14] = 0xff;
    assert_eq!(decode(&bad_utf8), None);
}
