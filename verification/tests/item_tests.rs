use pass_wallet::error::WalletError;
use pass_wallet::item::Item;

#[test]
fn item_test_empty() {
    let item: Item = Item::new("Empty_Test".to_string());
    assert_eq!(item.size(), 0);
    assert!(item.empty());
}

#[test]
fn test_entries_add() {
    let mut item: Item = Item::new("Entries_Test".to_string());

    let first_key: String = String::from("url");
    let first_val: String = String::from("https://www.google.com");

    assert!(item.add_entry(&first_key, &first_val).unwrap());
    assert_eq!(item.size(), 1);
    assert!(!item.empty());
    assert_eq!(item.get_entry(&first_key).unwrap(), &first_val);

    // Then add another entry with the same key.
    assert!(!item.add_entry(&first_key, &first_val).unwrap());
    assert_eq!(item.size(), 1);
    assert!(!item.empty());

    // Now try with a new key value pair.
    let second_key: String = String::from("username");
    let second_val: String = String::from("myusername");

    assert!(item.add_entry(&second_key, &second_val).unwrap());
    assert_eq!(item.size(), 2);
    assert!(!item.empty());
    assert_eq!(item.get_entry(&second_key).unwrap(), &second_val);
}

#[test]
fn test_entries_delete() {
    let mut item: Item = Item::new("Test".to_string());

    let first_key: String = String::from("url");
    let first_val: String = String::from("https://www.google.com");

    // Validate the details of the entry are correct
    assert!(item.add_entry(&first_key, &first_val).unwrap());
    assert_eq!(item.size(), 1);
    assert!(!item.empty());
    assert_eq!(item.get_entry(&first_key).unwrap(), &first_val);

    // Delete non-existent entry and validate nothing changed.
    let username: String = String::from("username");
    assert!(item.delete_entry(&username).is_err());
    assert_eq!(item.get_entry(&first_key).unwrap(), &first_val);
    assert_eq!(item.size(), 1);

    // Now delete the real entry and validate it is gone.
    assert!(item.delete_entry(&first_key).unwrap());
    assert_eq!(item.size(), 0);
}

#[test]
fn add_entry_overwrites_and_keeps_size() {
    let mut item = Item::new("Overwrite".to_string());
    let key = String::from("password");
    assert_eq!(item.add_entry(&key, &String::from("first")), Ok(true));
    assert_eq!(item.add_entry(&String::from("user"), &String::from("me")), Ok(true));
    assert_eq!(item.size(), 2);
    assert_eq!(item.add_entry(&key, &String::from("second")), Ok(false));
    assert_eq!(item.size(), 2);
    assert_eq!(item.get_entry(&key).unwrap(), "second");
    assert_eq!(item.get_entry(&String::from("user")).unwrap(), "me");
}

#[test]
fn get_entry_miss_is_retrieval_error() {
    let item = Item::new("Miss".to_string());
    assert_eq!(item.get_entry(&String::from("nothing")), Err(WalletError::RetrievalError));
    assert!(!item.has_entry(&String::from("nothing")));
}

#[test]
fn delete_entry_miss_is_deletion_error_and_changes_nothing() {
    let mut item = Item::new("Miss".to_string());
    item.add_entry(&String::from("a"), &String::from("1")).unwrap();
    let before = item.clone();
    assert_eq!(item.delete_entry(&String::from("b")), Err(WalletError::DeletionError));
    assert_eq!(item.size(), 1);
    assert_eq!(item, before);
}

#[test]
fn item_identifier_can_be_read_and_set() {
    let mut item = Item::new("Before".to_string());
    assert_eq!(item.get_ident(), "Before");
    item.add_entry(&String::from("k"), &String::from("v")).unwrap();
    item.set_ident(&String::from("After"));
    assert_eq!(item.get_ident(), "After");
    assert_eq!(item.size(), 1);
    assert_eq!(item.get_entry(&String::from("k")).unwrap(), "v");
}

#[test]
fn entries_are_kept_in_ascending_key_order() {
    let mut item = Item::new("Order".to_string());
    for key in ["pear", "apple", "zebra", "Apple", "app", ""] {
        item.add_entry(&key.to_string(), &key.to_uppercase()).unwrap();
    }
    assert_eq!(item.entry_count(), 6);
    let keys: Vec<String> = (0..item.entry_count()).map(|i| item.entry_key_at(i).clone()).collect();
    assert_eq!(keys, vec!["", "Apple", "app", "apple", "pear", "zebra"]);
    assert_eq!(item.entry_value_at(3), "APPLE");
}

#[test]
fn merge_entries_lets_the_other_item_win() {
    let mut mine = Item::new("Mine".to_string());
    mine.add_entry(&String::from("a"), &String::from("1")).unwrap();
    mine.add_entry(&String::from("b"), &String::from("2")).unwrap();
    let mut theirs = Item::new("Theirs".to_string());
    theirs.add_entry(&String::from("b"), &String::from("20")).unwrap();
    theirs.add_entry(&String::from("c"), &String::from("30")).unwrap();
    assert_eq!(mine.merge_entries(&theirs), Ok(()));
    assert_eq!(mine.size(), 3);
    assert_eq!(mine.get_entry(&String::from("a")).unwrap(), "1");
    assert_eq!(mine.get_entry(&String::from("b")).unwrap(), "20");
    assert_eq!(mine.get_entry(&String::from("c")).unwrap(), "30");
    assert_eq!(mine.get_ident(), "Mine");
    assert_eq!(theirs.size(), 2);
}

#[test]
fn items_are_equal_by_their_entries() {
    let mut a = Item::new("A".to_string());
    let mut b = Item::new("B".to_string());
    assert_eq!(a, b);
    a.add_entry(&String::from("k"), &String::from("v")).unwrap();
    assert_ne!(a, b);
    b.add_entry(&String::from("k"), &String::from("w")).unwrap();
    assert_ne!(a, b);
    b.add_entry(&String::from("k"), &String::from("v")).unwrap();
    assert_eq!(a, b);
}

#[test]
fn item_to_json_quotes_and_orders() {
    let mut item = Item::new("Json".to_string());
    assert_eq!(item.to_json().unwrap(), "{}");
    item.add_entry(&String::from("b"), &String::from("two")).unwrap();
    assert_eq!(item.to_json().unwrap(), r#"{"b":"two"}"#);
    item.add_entry(&String::from("a"), &String::from("say \"hi\"\n")).unwrap();
    assert_eq!(item.to_json().unwrap(), r#"{"a":"say \"hi\"\n","b":"two"}"#);
}
