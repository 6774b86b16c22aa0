use candid::Principal;
use ic_stable_structures::DefaultMemoryImpl;
use todo_backend::errors::Error;
use todo_backend::paginator::Paginator;
use todo_backend::service::{
    add_tag_to_todo_item, add_todo_item, delete_todo_item, get_todo_item, list_todo_items,
    modify_todo_priority, remove_tag_from_todo_item, toggle_todo_complete, update_todo_item,
};
use todo_backend::store::TodoStore;
use todo_backend::todo::{Priority, Todo};

fn new_store() -> TodoStore {
    TodoStore::new(DefaultMemoryImpl::default()).unwrap()
}

fn descriptions(todos: &[Todo]) -> Vec<String> {
    todos.iter().map(|t| t.description.clone()).collect()
}

#[test]
fn test_add_tag_to_todo() {
    let mut store = new_store();
    let principal = Principal::anonymous();
    store.add_todo(principal, 1, "Test Todo".to_string(), Priority::Medium);

    assert!(store.add_tag_to_todo(principal, 1, "urgent".to_string()).is_ok());
    let updated_todo = store.get_todo(principal, 1).unwrap();
    assert_eq!(updated_todo.tags, vec!["urgent"]);
}

#[test]
fn test_add_tag_to_nonexistent_todo() {
    let mut store = new_store();
    let principal = Principal::anonymous();

    assert_eq!(
        store.add_tag_to_todo(principal, 1, "urgent".to_string()),
        Err(Error::NotFound)
    );
}

#[test]
fn test_remove_tag_from_todo() {
    let mut store = new_store();
    let principal = Principal::anonymous();
    let mut todo = Todo::new(1, "Test Todo".to_string(), Priority::Medium);
    todo.add_tag("urgent".to_string());
    store.put(principal, 1, &todo);

    assert!(store.remove_tag_from_todo(principal, 1, "urgent").is_ok());
    let updated_todo = store.get_todo(principal, 1).unwrap();
    assert!(updated_todo.tags.is_empty());
}

#[test]
fn test_remove_tag_from_nonexistent_todo() {
    let mut store = new_store();
    let principal = Principal::anonymous();

    assert_eq!(
        store.remove_tag_from_todo(principal, 1, "urgent"),
        Err(Error::NotFound)
    );
}

#[test]
fn create_list_delete_scenario() {
    let mut store = new_store();
    let u1 = Principal::from_slice(&[1]);
    assert_eq!(add_todo_item(&mut store, u1, "A".to_string(), None), Some(1));
    assert_eq!(add_todo_item(&mut store, u1, "B".to_string(), None), Some(2));
    assert_eq!(add_todo_item(&mut store, u1, "C".to_string(), None), Some(3));

    let page1 = list_todo_items(&store, u1, Some(Paginator { page: 1, limit: Some(2) }));
    assert_eq!(descriptions(&page1), vec!["A", "B"]);
    let page2 = list_todo_items(&store, u1, Some(Paginator { page: 2, limit: Some(2) }));
    assert_eq!(descriptions(&page2), vec!["C"]);

    delete_todo_item(&mut store, u1, 2);
    assert_eq!(get_todo_item(&store, u1, 2), Err(Error::NotFound));
    let page1 = list_todo_items(&store, u1, Some(Paginator { page: 1, limit: Some(2) }));
    assert_eq!(descriptions(&page1), vec!["A", "C"]);
}

#[test]
fn update_with_empty_text_is_refused() {
    let mut store = new_store();
    let u1 = Principal::from_slice(&[1]);
    let id = add_todo_item(&mut store, u1, "A".to_string(), Some(Priority::Low)).unwrap();
    assert_eq!(id, 1);
    assert_eq!(
        update_todo_item(&mut store, u1, 1, "".to_string()),
        Err(Error::InvalidInput("Text cannot be empty".to_string()))
    );
    let todo = get_todo_item(&store, u1, 1).unwrap();
    assert_eq!(todo, Todo::new(1, "A".to_string(), Priority::Low));
}

#[test]
fn update_replaces_description() {
    let mut store = new_store();
    let u1 = Principal::from_slice(&[1]);
    add_todo_item(&mut store, u1, "A".to_string(), None);
    assert_eq!(update_todo_item(&mut store, u1, 1, "New".to_string()), Ok(()));
    assert_eq!(get_todo_item(&store, u1, 1).unwrap().description, "New");
    assert_eq!(
        update_todo_item(&mut store, u1, 9, "New".to_string()),
        Err(Error::NotFound)
    );
}

#[test]
fn tags_are_not_deduplicated() {
    let mut store = new_store();
    let u1 = Principal::from_slice(&[1]);
    add_todo_item(&mut store, u1, "A".to_string(), None);
    assert_eq!(add_tag_to_todo_item(&mut store, u1, 1, "urgent".to_string()), Ok(()));
    assert_eq!(add_tag_to_todo_item(&mut store, u1, 1, "urgent".to_string()), Ok(()));
    assert_eq!(get_todo_item(&store, u1, 1).unwrap().tags, vec!["urgent", "urgent"]);
    assert_eq!(remove_tag_from_todo_item(&mut store, u1, 1, "urgent"), Ok(()));
    assert!(get_todo_item(&store, u1, 1).unwrap().tags.is_empty());
    assert_eq!(remove_tag_from_todo_item(&mut store, u1, 1, "urgent"), Ok(()));
}

#[test]
fn toggle_and_priority() {
    let mut store = new_store();
    let u1 = Principal::from_slice(&[1]);
    add_todo_item(&mut store, u1, "A".to_string(), None);
    assert_eq!(get_todo_item(&store, u1, 1).unwrap().priority, Priority::Medium);
    assert_eq!(toggle_todo_complete(&mut store, u1, 1), Ok(()));
    assert!(get_todo_item(&store, u1, 1).unwrap().is_completed);
    assert_eq!(toggle_todo_complete(&mut store, u1, 1), Ok(()));
    assert!(!get_todo_item(&store, u1, 1).unwrap().is_completed);
    assert_eq!(modify_todo_priority(&mut store, u1, 1, Priority::High), Ok(()));
    assert_eq!(get_todo_item(&store, u1, 1).unwrap().priority, Priority::High);
    assert_eq!(toggle_todo_complete(&mut store, u1, 5), Err(Error::NotFound));
    assert_eq!(modify_todo_priority(&mut store, u1, 5, Priority::Low), Err(Error::NotFound));
}

#[test]
fn delete_twice_is_harmless() {
    let mut store = new_store();
    let u1 = Principal::from_slice(&[1]);
    add_todo_item(&mut store, u1, "A".to_string(), None);
    delete_todo_item(&mut store, u1, 1);
    assert_eq!(get_todo_item(&store, u1, 1), Err(Error::NotFound));
    delete_todo_item(&mut store, u1, 1);
    assert_eq!(get_todo_item(&store, u1, 1), Err(Error::NotFound));
    assert!(list_todo_items(&store, u1, None).is_empty());
}

#[test]
fn owners_do_not_see_each_other() {
    let mut store = new_store();
    let a = Principal::from_slice(&[1]);
    let b = Principal::from_slice(&[2]);
    store.add_todo(a, 1, "mine".to_string(), Priority::Low);
    store.add_todo(b, 1, "theirs".to_string(), Priority::High);
    assert_eq!(get_todo_item(&store, a, 1).unwrap().description, "mine");
    assert_eq!(get_todo_item(&store, b, 1).unwrap().description, "theirs");
    assert_eq!(update_todo_item(&mut store, a, 1, "changed".to_string()), Ok(()));
    assert_eq!(get_todo_item(&store, b, 1).unwrap().description, "theirs");
    delete_todo_item(&mut store, a, 1);
    assert_eq!(descriptions(&list_todo_items(&store, b, None)), vec!["theirs"]);
    assert!(list_todo_items(&store, a, None).is_empty());
    assert_eq!(get_todo_item(&store, Principal::anonymous(), 1), Err(Error::NotFound));
}

#[test]
fn list_orders_by_id_and_stays_in_partition() {
    let mut store = new_store();
    let a = Principal::from_slice(&[1]);
    let b = Principal::from_slice(&[1, 0]);
    store.add_todo(b, 0, "b0".to_string(), Priority::Low);
    store.add_todo(a, 30, "a30".to_string(), Priority::Low);
    store.add_todo(a, 2, "a2".to_string(), Priority::Low);
    store.add_todo(a, u32::MAX, "amax".to_string(), Priority::Low);
    store.add_todo(a, 0, "a0".to_string(), Priority::Low);
    let all = list_todo_items(&store, a, Some(Paginator { page: 1, limit: Some(100) }));
    assert_eq!(descriptions(&all), vec!["a0", "a2", "a30", "amax"]);
    let again = list_todo_items(&store, a, Some(Paginator { page: 1, limit: Some(100) }));
    assert_eq!(all, again);
    assert_eq!(descriptions(&list_todo_items(&store, b, None)), vec!["b0"]);
}

#[test]
fn list_default_page_and_limits() {
    let mut store = new_store();
    let a = Principal::from_slice(&[7]);
    for i in 0..120u32 {
        store.add_todo(a, i, format!("t{}", i), Priority::Medium);
    }
    assert_eq!(list_todo_items(&store, a, None).len(), 5);
    let big = list_todo_items(&store, a, Some(Paginator { page: 1, limit: Some(500) }));
    assert_eq!(big.len(), 100);
    let second = list_todo_items(&store, a, Some(Paginator { page: 2, limit: Some(500) }));
    assert_eq!(second.len(), 20);
    assert_eq!(second[0].description, "t100");
    let far = list_todo_items(&store, a, Some(Paginator { page: u32::MAX, limit: Some(100) }));
    assert!(far.is_empty());
    let zero = list_todo_items(&store, a, Some(Paginator { page: 1, limit: Some(0) }));
    assert!(zero.is_empty());
}

#[test]
fn ids_survive_restart_and_are_not_reused() {
    let memory = DefaultMemoryImpl::default();
    let u1 = Principal::from_slice(&[1]);
    {
        let mut store = TodoStore::init(memory.clone()).unwrap();
        assert_eq!(add_todo_item(&mut store, u1, "A".to_string(), None), Some(1));
        assert_eq!(add_todo_item(&mut store, u1, "B".to_string(), None), Some(2));
        delete_todo_item(&mut store, u1, 2);
    }
    let mut store = TodoStore::init(memory.clone()).unwrap();
    assert_eq!(get_todo_item(&store, u1, 1).unwrap().description, "A");
    assert_eq!(add_todo_item(&mut store, u1, "C".to_string(), None), Some(3));
    let other = Principal::from_slice(&[2]);
    assert_eq!(add_todo_item(&mut store, other, "D".to_string(), None), Some(4));
}

#[test]
fn generate_next_id_counts_up() {
    let mut store = new_store();
    assert_eq!(store.generate_next_id(), Some(1));
    assert_eq!(store.generate_next_id(), Some(2));
}

#[test]
fn new_discards_an_earlier_store() {
    let memory = DefaultMemoryImpl::default();
    let u1 = Principal::from_slice(&[1]);
    {
        let mut store = TodoStore::init(memory.clone()).unwrap();
        assert_eq!(add_todo_item(&mut store, u1, "A".to_string(), None), Some(1));
    }
    let mut store = TodoStore::new(memory.clone()).unwrap();
    assert_eq!(get_todo_item(&store, u1, 1), Err(Error::NotFound));
    assert_eq!(add_todo_item(&mut store, u1, "B".to_string(), None), Some(1));
}

#[test]
fn init_on_empty_memory_starts_at_zero() {
    let mut store = TodoStore::init(DefaultMemoryImpl::default()).unwrap();
    let u1 = Principal::from_slice(&[1]);
    assert!(list_todo_items(&store, u1, None).is_empty());
    assert_eq!(store.generate_next_id(), Some(1));
}
