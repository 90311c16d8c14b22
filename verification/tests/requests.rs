use eval_rust::cache_repository::{
    get_item_by_key, insert_cache_item, load_cache_db, CACHE_DB_PATH, CACHE_DB_SIZE,
};
use eval_rust::cache_service;
use eval_rust::controllers::cache_controller;
use eval_rust::models::custom_error::CustomError;
use eval_rust::{CacheDb, CacheItem, CacheResponse};

fn item(key: &str, value: &str) -> CacheItem {
    CacheItem::new(key.to_string(), value.to_string())
}

fn list(items: &[(&str, &str)]) -> CacheDb {
    let items = items.iter().map(|(key, value)| item(key, value)).collect();
    CacheDb::new(items, "items.db".to_string(), 10)
}

fn pairs(repo: &CacheDb) -> Vec<(String, String)> {
    repo.items().iter().map(|item| (item.key.clone(), item.value.clone())).collect()
}

fn pair(key: &str, value: &str) -> (String, String) {
    (key.to_string(), value.to_string())
}

fn parts(
    response: &CacheResponse,
) -> (String, Option<String>, Option<usize>, Option<usize>, Option<(String, String)>) {
    (
        response.status.clone(),
        response.details.clone(),
        response.current_position,
        response.previous_position,
        response.cache_item.as_ref().map(|item| (item.key.clone(), item.value.clone())),
    )
}

#[test]
fn an_item_has_its_key_and_its_value() {
    let made = item("k", "v");
    assert_eq!(made.key, "k");
    assert_eq!(made.value, "v");
    let copy = made.clone();
    assert_eq!(copy.key, "k");
    assert_eq!(copy.value, "v");
    let empty = CacheItem::default();
    assert_eq!(empty.key, "");
    assert_eq!(empty.value, "");
}

#[test]
fn a_response_has_the_parts_it_was_made_of() {
    let response = CacheResponse::new(
        "Found".to_string(),
        Some("details".to_string()),
        Some(1),
        Some(3),
        Some(item("k", "v")),
    );
    assert_eq!(
        parts(&response),
        ("Found".to_string(), Some("details".to_string()), Some(1), Some(3), Some(pair("k", "v")))
    );
    assert_eq!(parts(&response.clone()), parts(&response));
    assert_eq!(parts(&CacheResponse::default()), (String::new(), None, None, None, None));
}

#[test]
fn a_list_is_made_with_the_usual_path_and_size() {
    let repo = load_cache_db(vec![item("a", "1")], None, None).unwrap();
    assert_eq!(repo.path(), "cache_default_db.db");
    assert_eq!(repo.path(), CACHE_DB_PATH);
    assert_eq!(repo.size(), 10);
    assert_eq!(repo.size(), CACHE_DB_SIZE);
    assert_eq!(pairs(&repo), vec![pair("a", "1")]);
}

#[test]
fn a_list_is_made_with_the_path_and_size_given() {
    let repo = load_cache_db(Vec::new(), Some("other.db"), Some(3)).unwrap();
    assert_eq!(repo.path(), "other.db");
    assert_eq!(repo.size(), 3);
    assert!(repo.items().is_empty());
}

#[test]
fn a_lookup_moves_the_item_to_the_front_and_tells_where_it_stood() {
    let mut repo = list(&[("a", "1"), ("b", "2"), ("c", "3")]);
    let response = repo.get_item_by_key(&"c".to_string()).unwrap();
    assert_eq!(
        parts(&response),
        ("Found".to_string(), None, Some(1), Some(3), Some(pair("c", "3")))
    );
    assert_eq!(pairs(&repo), vec![pair("c", "3"), pair("a", "1"), pair("b", "2")]);
}

#[test]
fn a_lookup_of_the_front_item_leaves_the_list_as_it_is() {
    let mut repo = list(&[("a", "1"), ("b", "2")]);
    let response = get_item_by_key(&mut repo, &"a".to_string()).unwrap();
    assert_eq!(
        parts(&response),
        ("Found".to_string(), None, Some(1), Some(1), Some(pair("a", "1")))
    );
    assert_eq!(pairs(&repo), vec![pair("a", "1"), pair("b", "2")]);
}

#[test]
fn a_lookup_of_an_unknown_key_finds_nothing_and_changes_nothing() {
    let mut repo = list(&[("a", "1"), ("b", "2")]);
    let response = get_item_by_key(&mut repo, &"z".to_string()).unwrap();
    assert_eq!(
        parts(&response),
        (
            "Not Found".to_string(),
            Some("Item not found with this key".to_string()),
            None,
            None,
            None
        )
    );
    assert_eq!(pairs(&repo), vec![pair("a", "1"), pair("b", "2")]);
}

#[test]
fn a_lookup_takes_the_first_of_two_items_with_one_key() {
    let mut repo = list(&[("a", "1"), ("b", "2"), ("b", "3")]);
    let response = cache_service::get_item_by_key(&mut repo, &"b".to_string()).unwrap();
    assert_eq!(
        parts(&response),
        ("Found".to_string(), None, Some(1), Some(2), Some(pair("b", "2")))
    );
    assert_eq!(pairs(&repo), vec![pair("b", "2"), pair("a", "1"), pair("b", "3")]);
}

#[test]
fn an_insertion_of_a_new_key_puts_the_item_at_the_front() {
    let mut repo = list(&[("a", "1"), ("b", "2")]);
    let response = insert_cache_item(&mut repo, &item("c", "3")).unwrap();
    assert_eq!(
        parts(&response),
        ("Inserted".to_string(), None, Some(1), None, Some(pair("c", "3")))
    );
    assert_eq!(pairs(&repo), vec![pair("c", "3"), pair("a", "1"), pair("b", "2")]);
}

#[test]
fn an_insertion_of_a_known_key_replaces_the_item_and_tells_where_it_stood() {
    let mut repo = list(&[("a", "1"), ("b", "2"), ("c", "3")]);
    let response = cache_service::insert_item(&mut repo, item("b", "two")).unwrap();
    assert_eq!(
        parts(&response),
        ("Inserted".to_string(), None, Some(1), Some(2), Some(pair("b", "two")))
    );
    assert_eq!(pairs(&repo), vec![pair("b", "two"), pair("a", "1"), pair("c", "3")]);
}

#[test]
fn an_insertion_into_an_empty_list_makes_a_list_of_one() {
    let mut repo = list(&[]);
    let response = insert_cache_item(&mut repo, &item("a", "1")).unwrap();
    assert_eq!(
        parts(&response),
        ("Inserted".to_string(), None, Some(1), None, Some(pair("a", "1")))
    );
    assert_eq!(pairs(&repo), vec![pair("a", "1")]);
}

#[test]
fn insert_puts_a_copy_at_the_front_and_hands_one_back() {
    let mut repo = list(&[("a", "1")]);
    let given = item("a", "2");
    let back = repo.insert(&given).unwrap();
    assert_eq!((back.key, back.value), pair("a", "2"));
    assert_eq!(pairs(&repo), vec![pair("a", "2"), pair("a", "1")]);
}

#[test]
fn remove_if_present_tells_the_position_counted_from_one() {
    let mut repo = list(&[("a", "1"), ("b", "2"), ("c", "3")]);
    assert_eq!(repo.remove_if_present(&"b".to_string()).unwrap(), Some(2));
    assert_eq!(pairs(&repo), vec![pair("a", "1"), pair("c", "3")]);
    assert_eq!(repo.remove_if_present(&"b".to_string()).unwrap(), None);
    assert_eq!(pairs(&repo), vec![pair("a", "1"), pair("c", "3")]);
    assert_eq!(repo.remove_if_present(&"a".to_string()).unwrap(), Some(1));
    assert_eq!(repo.remove_if_present(&"c".to_string()).unwrap(), Some(1));
    assert!(repo.items().is_empty());
}

#[test]
fn the_reply_to_a_lookup_is_ok_not_found_or_an_internal_error() {
    let mut repo = list(&[("a", "1")]);
    let found = cache_service::get_item_by_key(&mut repo, &"a".to_string());
    assert_eq!(cache_controller::get_cache_item_by_key(&found), 200);
    let missing = cache_service::get_item_by_key(&mut repo, &"z".to_string());
    assert_eq!(cache_controller::get_cache_item_by_key(&missing), 404);
    let failed: Result<CacheResponse, CustomError> = Err(CustomError::InternalServerError);
    assert_eq!(cache_controller::get_cache_item_by_key(&failed), 500);
    let unloaded: Result<CacheResponse, CustomError> = Err(CustomError::CacheDbLoadError);
    assert_eq!(cache_controller::get_cache_item_by_key(&unloaded), 500);
}

#[test]
fn the_reply_to_an_insertion_is_ok_or_an_internal_error() {
    let mut repo = list(&[]);
    let inserted = cache_service::insert_item(&mut repo, item("a", "1"));
    assert_eq!(cache_controller::insert_cache_item(&inserted), 200);
    let failed: Result<CacheResponse, CustomError> = Err(CustomError::InternalServerError);
    assert_eq!(cache_controller::insert_cache_item(&failed), 500);
    assert_eq!(cache_controller::STATUS_OK, 200);
    assert_eq!(cache_controller::STATUS_NOT_FOUND, 404);
    assert_eq!(cache_controller::STATUS_INTERNAL_SERVER_ERROR, 500);
}

#[test]
fn request_errors_describe_themselves() {
    assert_eq!(CustomError::NotFound.to_string(), "404 Not Found");
    assert_eq!(CustomError::BadRequest.to_string(), "400 Bad Request");
    assert_eq!(CustomError::InternalServerError.to_string(), "500 Internal Server Error");
    assert_eq!(CustomError::CacheDbLoadError.to_string(), "Cache DB Load Error");
}

#[test]
fn only_the_answer_to_a_lookup_that_found_its_item_is_found() {
    let mut repo = list(&[("a", "1")]);
    assert!(get_item_by_key(&mut repo, &"a".to_string()).unwrap().is_found());
    assert!(!get_item_by_key(&mut repo, &"z".to_string()).unwrap().is_found());
    assert!(!insert_cache_item(&mut repo, &item("b", "2")).unwrap().is_found());
    assert!(!CacheResponse::default().is_found());
}
