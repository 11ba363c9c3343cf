use pass_wallet::category::Category;
use pass_wallet::item::Item;

#[test]
fn category_test_empty() {
    let empty_category: Category = Category::new("Empty_Test".to_string());
    assert_eq!(empty_category.size(), 0);
    assert!(empty_category.empty());
}

#[test]
fn test_items_add() {
    let mut category: Category = Category::new("Test_Cat".to_string());
    assert!(category.empty());

    let item_identifier: String = "Test_Item".to_string();
    let item: Item = Item::new(item_identifier.clone());
    assert!(item.empty());
    assert!(category.add_item(&item));
    assert_eq!(category.size(), 1);
    assert!(!category.empty());
    assert_eq!(category.get_item(&item_identifier).unwrap(), &item);
    assert!(!category.empty());

    // Now try to add a new item with the same identifier.
    let item2: Item = Item::new(item_identifier.clone());
    assert!(item2.empty());
    assert!(!category.add_item(&item2));
    assert_eq!(category.size(), 1);
    assert!(!category.empty());

    // Now add another item with a different identifier.
    let item_identifier2: String = "Test_Item2".to_string();
    let item3: Item = Item::new(item_identifier2.clone());
    assert!(item3.empty());
    assert!(category.add_item(&item3));
    assert_eq!(category.size(), 2);
    assert!(!category.empty());
    assert_eq!(category.get_item(&item_identifier2).unwrap(), &item3);
}

#[test]
fn test_items_delete() {
    let mut category: Category = Category::new("Test_Cat".to_string());
    assert!(category.empty());

    let item_identifier: String = "Test_Item".to_string();
    let item: Item = Item::new(item_identifier.clone());
    assert!(item.empty());
    assert!(category.add_item(&item));
    assert_eq!(category.size(), 1);
    assert!(!category.empty());
    assert_eq!(category.get_item(&item_identifier).unwrap(), &item);
    assert!(!category.empty());

    // Now try to delete an item that doesn't exist.
    let item_identifier2: String = "Test_Item2".to_string();
    assert!(!category.delete_item(&item_identifier2));
    assert_eq!(category.get_item(&item_identifier).unwrap(), &item);
    assert_eq!(category.size(), 1);
    assert!(!category.empty());

    // Now delete the item that does exist.
    assert!(category.delete_item(&item_identifier));
    assert_eq!(category.size(), 0);
    assert!(category.empty());
}

fn item_with(name: &str, pairs: &[(&str, &str)]) -> Item {
    let mut item = Item::new(name.to_string());
    for (k, v) in pairs {
        item.add_entry(&k.to_string(), &v.to_string()).unwrap();
    }
    item
}

#[test]
fn add_item_on_an_existing_name_changes_nothing() {
    let mut category = Category::new("Cat".to_string());
    assert!(category.add_item(&item_with("Item", &[("k", "first")])));
    let before = category.clone();
    assert!(!category.add_item(&item_with("Item", &[("k", "second"), ("l", "more")])));
    assert_eq!(category, before);
    assert_eq!(category.size(), 1);
    let name = "Item".to_string();
    assert_eq!(category.get_item(&name).unwrap().get_entry(&"k".to_string()).unwrap(), "first");
}

#[test]
fn new_item_gets_or_creates() {
    let mut category = Category::new("Cat".to_string());
    let name = "Item".to_string();
    {
        let item = category.new_item(&name);
        assert!(item.empty());
        assert_eq!(item.get_ident(), "Item");
        item.add_entry(&"k".to_string(), &"v".to_string()).unwrap();
    }
    assert_eq!(category.size(), 1);
    {
        let item = category.new_item(&name);
        assert_eq!(item.size(), 1);
        assert_eq!(item.get_entry(&"k".to_string()).unwrap(), "v");
    }
    assert_eq!(category.size(), 1);
    assert!(category.has_item(&name));
    assert!(!category.has_item(&"Other".to_string()));
}

#[test]
fn get_item_miss_is_none() {
    let mut category = Category::new("Cat".to_string());
    assert!(category.get_item(&"Nothing".to_string()).is_none());
}

#[test]
fn delete_item_takes_its_entries_along() {
    let mut category = Category::new("Cat".to_string());
    category.add_item(&item_with("A", &[("k", "v"), ("l", "w")]));
    category.add_item(&item_with("B", &[("m", "x")]));
    assert_eq!(category.size(), 2);
    assert!(category.delete_item(&"A".to_string()));
    assert_eq!(category.size(), 1);
    assert!(category.get_item(&"A".to_string()).is_none());
    assert_eq!(category.to_json().unwrap(), r#"{"B":{"m":"x"}}"#);
}

#[test]
fn remove_item_hands_the_item_out() {
    let mut category = Category::new("Cat".to_string());
    category.add_item(&item_with("A", &[("k", "v")]));
    let taken = category.remove_item(&"A".to_string()).unwrap();
    assert_eq!(taken.get_ident(), "A");
    assert_eq!(taken.get_entry(&"k".to_string()).unwrap(), "v");
    assert!(category.empty());
    assert!(category.remove_item(&"A".to_string()).is_none());
}

#[test]
fn insert_item_takes_the_item_in_by_its_name() {
    let mut category = Category::new("Cat".to_string());
    assert!(category.insert_item(item_with("B", &[("k", "v")])));
    assert!(category.insert_item(item_with("A", &[])));
    assert!(!category.insert_item(item_with("B", &[])));
    assert_eq!(category.item_count(), 2);
    assert_eq!(category.item_key_at(0), "A");
    assert_eq!(category.item_key_at(1), "B");
    assert_eq!(category.item_at(1).size(), 1);
}

#[test]
fn merge_items_merges_common_and_copies_new() {
    let mut mine = Category::new("Mine".to_string());
    mine.add_item(&item_with("Common", &[("a", "1"), ("b", "2")]));
    mine.add_item(&item_with("Only mine", &[("x", "y")]));
    let mut theirs = Category::new("Theirs".to_string());
    theirs.add_item(&item_with("Common", &[("b", "20"), ("c", "30")]));
    theirs.add_item(&item_with("Only theirs", &[("p", "q")]));
    mine.merge_items(&theirs);
    assert_eq!(mine.get_ident(), "Mine");
    assert_eq!(
        mine.to_json().unwrap(),
        r#"{"Common":{"a":"1","b":"20","c":"30"},"Only mine":{"x":"y"},"Only theirs":{"p":"q"}}"#
    );
    assert_eq!(theirs.size(), 2);
}

#[test]
fn category_identifier_can_be_read_and_set() {
    let mut category = Category::new("Before".to_string());
    category.add_item(&item_with("A", &[]));
    assert_eq!(category.get_ident(), "Before");
    category.set_ident(&"After".to_string());
    assert_eq!(category.get_ident(), "After");
    assert_eq!(category.size(), 1);
}

#[test]
fn categories_are_equal_by_their_items() {
    let mut a = Category::new("A".to_string());
    let mut b = Category::new("B".to_string());
    assert_eq!(a, b);
    a.add_item(&item_with("I", &[("k", "v")]));
    assert_ne!(a, b);
    b.add_item(&item_with("I", &[("k", "w")]));
    assert_ne!(a, b);
    b.get_item(&"I".to_string()).unwrap().add_entry(&"k".to_string(), &"v".to_string()).unwrap();
    assert_eq!(a, b);
}
