use pass_wallet::category::Category;
use pass_wallet::error::WalletError;
use pass_wallet::item::Item;
use pass_wallet::wallet::Wallet;

#[test]
fn wallet_test_empty() {
    let wallet: Wallet = Wallet::new();
    assert_eq!(wallet.size(), 0);
    assert!(wallet.empty());
}

#[test]
fn test_categories_add() {
    let mut wallet: Wallet = Wallet::new();
    assert!(wallet.empty());

    let first_cat_ident: String = String::from("Test");
    let first_category: Category = Category::new(first_cat_ident.clone());
    assert!(wallet.empty());
    assert!(wallet.add_category(first_category.clone()).unwrap());
    assert_eq!(wallet.size(), 1);
    assert!(!wallet.empty());
    assert_eq!(wallet.get_category(&first_cat_ident).unwrap(), &first_category);

    let second_category: Category = Category::new(first_cat_ident.clone());
    assert!(second_category.empty());
    assert!(wallet.add_category(second_category.clone()).is_err());
    assert_eq!(wallet.size(), 1);
    assert!(!wallet.empty());

    let third_cat_ident: String = String::from("Test2");
    let third_category: Category = Category::new(third_cat_ident.clone());
    assert!(third_category.empty());
    assert!(wallet.add_category(third_category.clone()).unwrap());
    assert_eq!(wallet.size(), 2);
    assert!(!wallet.empty());
    assert_eq!(wallet.get_category(&third_cat_ident).unwrap(), &third_category);
}

#[test]
fn test_categories_delete() {
    let mut wallet: Wallet = Wallet::new();
    assert!(wallet.empty());
    let first_cat_ident: String = String::from("Test");
    let first_category: Category = Category::new(first_cat_ident.clone());
    assert!(wallet.empty());
    assert!(wallet.add_category(first_category.clone()).unwrap());
    assert_eq!(wallet.size(), 1);
    assert!(!wallet.empty());
    assert_eq!(wallet.get_category(&first_cat_ident).unwrap(), &first_category);
    assert!(wallet.delete_category(&first_cat_ident).unwrap());
    assert_eq!(wallet.size(), 0);
}

#[test]
fn test_load_json_file() {
    let data: String = String::from(
        r#"{
            "Bank Accounts":{
                "Starling":{
                    "Account Number":"12345678",
                    "Name":"Mr John Doe",
                    "Sort Code":"12-34-56"
                }
            },
            "Websites":{
                "Facebook":{
                    "password":"pass1234fb",
                    "url":"https://www.facebook.com/",
                    "username":"example@gmail.com"
                    },
                "Google":{
                    "password":"pass1234",
                    "url":"https://www.google.com/",
                    "username":"example@gmail.com"
                },
                "Twitter":{
                    "password":"r43rfsffdsfdsf",
                    "url":"https://www.twitter.com/",
                    "username":"example@gmail.com"
                    }
                }
            }"#,
    );

    assert!(!data.is_empty());
    assert!(data.contains("Websites"));

    let mut wallet: Wallet = Wallet::new();
    assert!(wallet.empty());
    assert!(wallet.load(&data).unwrap());
    assert_eq!(wallet.size(), 2);

    let web: String = String::from("Websites");
    assert!(wallet.get_category(&web).is_ok());
    assert_eq!(wallet.get_category(&web).unwrap().size(), 3);

    let google: String = String::from("Google");
    assert!(wallet.get_category(&web).unwrap().get_item(&google).is_some());
    assert_eq!(wallet.get_category(&web).unwrap().get_item(&google).unwrap().size(), 3);
    assert_eq!(
        wallet
            .get_category(&web)
            .unwrap()
            .get_item(&google)
            .unwrap()
            .get_entry(&String::from("url"))
            .unwrap(),
        &String::from("https://www.google.com/")
    );
    assert_eq!(
        wallet
            .get_category(&web)
            .unwrap()
            .get_item(&google)
            .unwrap()
            .get_entry(&String::from("username"))
            .unwrap(),
        &String::from("example@gmail.com")
    );
    assert_eq!(
        wallet
            .get_category(&web)
            .unwrap()
            .get_item(&google)
            .unwrap()
            .get_entry(&String::from("password"))
            .unwrap(),
        &String::from("pass1234")
    );

    let facebook: String = String::from("Facebook");
    assert!(wallet.get_category(&web).unwrap().get_item(&facebook).is_some());
    assert_eq!(wallet.get_category(&web).unwrap().get_item(&facebook).unwrap().size(), 3);
    assert_eq!(
        wallet
            .get_category(&web)
            .unwrap()
            .get_item(&facebook)
            .unwrap()
            .get_entry(&String::from("url"))
            .unwrap(),
        &String::from("https://www.facebook.com/")
    );
    assert_eq!(
        wallet
            .get_category(&web)
            .unwrap()
            .get_item(&facebook)
            .unwrap()
            .get_entry(&String::from("username"))
            .unwrap(),
        &String::from("example@gmail.com")
    );
    assert_eq!(
        wallet
            .get_category(&web)
            .unwrap()
            .get_item(&facebook)
            .unwrap()
            .get_entry(&String::from("password"))
            .unwrap(),
        &String::from("pass1234fb")
    );

    let twitter: String = String::from("Twitter");
    assert!(wallet.get_category(&web).unwrap().get_item(&twitter).is_some());
    assert_eq!(wallet.get_category(&web).unwrap().get_item(&twitter).unwrap().size(), 3);
    assert_eq!(
        wallet
            .get_category(&web)
            .unwrap()
            .get_item(&twitter)
            .unwrap()
            .get_entry(&String::from("url"))
            .unwrap(),
        &String::from("https://www.twitter.com/")
    );
    assert_eq!(
        wallet
            .get_category(&web)
            .unwrap()
            .get_item(&twitter)
            .unwrap()
            .get_entry(&String::from("username"))
            .unwrap(),
        &String::from("example@gmail.com")
    );
    assert_eq!(
        wallet
            .get_category(&web)
            .unwrap()
            .get_item(&twitter)
            .unwrap()
            .get_entry(&String::from("password"))
            .unwrap(),
        &String::from("r43rfsffdsfdsf")
    );

    let bank: String = String::from("Bank Accounts");
    assert!(wallet.get_category(&bank).is_ok());
    assert_eq!(wallet.get_category(&bank).unwrap().size(), 1);

    let starling: String = String::from("Starling");
    assert!(wallet.get_category(&bank).unwrap().get_item(&starling).is_some());
    assert_eq!(wallet.get_category(&bank).unwrap().get_item(&starling).unwrap().size(), 3);
    assert_eq!(
        wallet
            .get_category(&bank)
            .unwrap()
            .get_item(&starling)
            .unwrap()
            .get_entry(&String::from("Name"))
            .unwrap(),
        &String::from("Mr John Doe")
    );
    assert_eq!(
        wallet
            .get_category(&bank)
            .unwrap()
            .get_item(&starling)
            .unwrap()
            .get_entry(&String::from("Account Number"))
            .unwrap(),
        &String::from("12345678")
    );
    assert_eq!(
        wallet
            .get_category(&bank)
            .unwrap()
            .get_item(&starling)
            .unwrap()
            .get_entry(&String::from("Sort Code"))
            .unwrap(),
        &String::from("12-34-56")
    );
}

#[test]
fn test_save_json_file() {
    let mut wallet = Wallet::new();
    assert!(wallet.empty());

    let ident_1: String = String::from("ident_1");
    let ident_2: String = String::from("ident_2");

    let entry_key_1 = String::from("key_1");
    let entry_key_2 = String::from("key_2");

    let entry_value_1: String = String::from("value_1");
    let entry_value_2: String = String::from("value_2");

    let mut item_1: Item = Item::new(ident_1.clone());
    let mut item_2: Item = Item::new(ident_2.clone());
    item_1.add_entry(&entry_key_1, &entry_value_1).expect("error adding entry");
    item_1.add_entry(&entry_key_2, &entry_value_2).expect("error adding entry");
    item_2.add_entry(&entry_key_1, &entry_value_1).expect("error adding entry");

    assert_eq!(item_1.size(), 2);
    assert_eq!(item_2.size(), 1);

    let mut cat_1: Category = Category::new(ident_1.clone());
    let mut cat_2: Category = Category::new(ident_2.clone());
    assert!(cat_1.add_item(&item_1));
    assert!(cat_1.add_item(&item_2));
    assert!(cat_2.add_item(&item_1));

    assert_eq!(cat_1.size(), 2);
    assert_eq!(cat_2.size(), 1);

    wallet.add_category(cat_1).expect("error adding category");
    wallet.add_category(cat_2).expect("error adding category");

    assert_eq!(wallet.size(), 2);
    assert!(wallet.save().is_ok());
    let file_contents: String = wallet.save().unwrap();
    let expected_contents: &str = r#"{"ident_1":{"ident_1":{"key_1":"value_1","key_2":"value_2"},"ident_2":{"key_1":"value_1"}},"ident_2":{"ident_1":{"key_1":"value_1","key_2":"value_2"}}}"#;
    assert_eq!(file_contents, expected_contents);
}

const DATABASE: &str = r#"{"Bank Accounts":{"Starling":{"Account Number":"12345678","Name":"Mr John Doe","Sort Code":"12-34-56"}},"Websites":{"Facebook":{"password":"pass1234fb","url":"https://www.facebook.com/","username":"example@gmail.com"},"Google":{"password":"pass1234","url":"https://www.google.com/","username":"example@gmail.com"},"Twitter":{"password":"r43rfsffdsfdsf","url":"https://www.twitter.com/","username":"example@gmail.com"}}}"#;

#[test]
fn save_load_save_gives_the_same_text() {
    let mut first = Wallet::new();
    assert_eq!(first.load(DATABASE), Ok(true));
    let saved = first.save().unwrap();
    assert_eq!(saved, DATABASE);
    let mut second = Wallet::new();
    assert_eq!(second.load(&saved), Ok(true));
    assert_eq!(second.save().unwrap(), saved);
    assert_eq!(first, second);
}

#[test]
fn save_load_save_with_unicode_and_quotes() {
    let mut wallet = Wallet::new();
    let category = wallet.new_category(&String::from("Caf\u{e9} \"quoted\""));
    let item = category.new_item(&String::from("\u{1F511} key"));
    item.add_entry(&String::from("na\u{ef}ve"), &String::from("tab\there, quote \" and \u{4e2d}\u{6587}")).unwrap();
    let saved = wallet.save().unwrap();
    let mut again = Wallet::new();
    assert_eq!(again.load(&saved), Ok(true));
    assert_eq!(again.save().unwrap(), saved);
    assert_eq!(again, wallet);
}

#[test]
fn load_unescapes_values_only() {
    let mut wallet = Wallet::new();
    let text = r#"{"c\\n":{"i\\t":{"k\\n":"line\\nbreak \\u0041 \\x42 \\103"}}}"#;
    assert_eq!(wallet.load(text), Ok(true));
    let category = wallet.get_category(&String::from("c\\n")).unwrap();
    let item = category.get_item(&String::from("i\\t")).unwrap();
    assert_eq!(item.get_entry(&String::from("k\\n")).unwrap(), "line\nbreak A B C");
}

#[test]
fn load_fails_on_a_value_that_cannot_be_unescaped() {
    let mut wallet = Wallet::new();
    wallet.new_category(&String::from("Kept"));
    let before = wallet.clone();
    let text = r#"{"a":{"b":{"good":"fine"}},"c":{"d":{"bad":"ends in a backslash \\"}}}"#;
    assert_eq!(wallet.load(text), Err(WalletError::LoadError));
    assert_eq!(wallet, before);
    assert_eq!(wallet.size(), 1);
}

#[test]
fn load_fails_on_text_of_another_shape() {
    for text in [
        "",
        "not json",
        "[]",
        "{\"a\":1}",
        "{\"a\":{\"b\":\"c\"}}",
        "{\"a\":{\"b\":{\"c\":5}}}",
        "{\"a\":{\"b\":{\"c\":{\"d\":\"e\"}}}}",
        "{\"a\":{\"b\":{\"c\":\"d\"}}",
    ] {
        let mut wallet = Wallet::new();
        assert_eq!(wallet.load(text), Err(WalletError::LoadError), "{}", text);
        assert!(wallet.empty());
    }
}

#[test]
fn load_merges_into_what_is_there() {
    let mut wallet = Wallet::new();
    assert_eq!(wallet.load(r#"{"A":{"i":{"k":"old","l":"kept"}},"B":{}}"#), Ok(true));
    assert_eq!(wallet.load(r#"{"A":{"i":{"k":"new"},"j":{}},"C":{"x":{"y":"z"}}}"#), Ok(true));
    assert_eq!(
        wallet.save().unwrap(),
        r#"{"A":{"i":{"k":"new","l":"kept"},"j":{}},"B":{},"C":{"x":{"y":"z"}}}"#
    );
}

#[test]
fn load_of_an_empty_object_gives_an_empty_wallet() {
    let mut wallet = Wallet::new();
    assert_eq!(wallet.load("{}"), Ok(true));
    assert!(wallet.empty());
    assert_eq!(wallet.save().unwrap(), "{}");
}

#[test]
fn put_document_puts_in_order_and_overwrites() {
    let mut wallet = Wallet::new();
    let document = vec![
        (
            String::from("B"),
            vec![(String::from("i"), vec![(String::from("k"), String::from("1"))])],
        ),
        (String::from("A"), vec![]),
        (
            String::from("B"),
            vec![
                (
                    String::from("i"),
                    vec![
                        (String::from("k"), String::from("2")),
                        (String::from("k"), String::from("3")),
                    ],
                ),
                (String::from("h"), vec![]),
            ],
        ),
    ];
    wallet.put_document(&document);
    assert_eq!(wallet.save().unwrap(), r#"{"A":{},"B":{"h":{},"i":{"k":"3"}}}"#);
}

#[test]
fn add_category_on_an_existing_name_changes_nothing() {
    let mut wallet = Wallet::new();
    let mut first = Category::new(String::from("Cat"));
    first.new_item(&String::from("kept"));
    assert_eq!(wallet.add_category(first), Ok(true));
    let before = wallet.clone();
    let mut second = Category::new(String::from("Cat"));
    second.new_item(&String::from("other"));
    assert_eq!(wallet.add_category(second), Err(WalletError::InsertionError));
    assert_eq!(wallet, before);
    assert_eq!(wallet.save().unwrap(), r#"{"Cat":{"kept":{}}}"#);
}

#[test]
fn new_category_gets_or_creates() {
    let mut wallet = Wallet::new();
    let name = String::from("Cat");
    {
        let category = wallet.new_category(&name);
        assert!(category.empty());
        assert_eq!(category.get_ident(), "Cat");
        category.new_item(&String::from("Item"));
    }
    assert_eq!(wallet.size(), 1);
    assert_eq!(wallet.new_category(&name).size(), 1);
    assert_eq!(wallet.size(), 1);
    assert!(wallet.has_category(&name));
}

#[test]
fn get_category_miss_is_retrieval_error() {
    let mut wallet = Wallet::new();
    assert_eq!(
        wallet.get_category(&String::from("Nothing")).map(|_| ()),
        Err(WalletError::RetrievalError)
    );
}

#[test]
fn delete_category_miss_is_deletion_error_and_changes_nothing() {
    let mut wallet = Wallet::new();
    wallet.load(DATABASE).unwrap();
    let before = wallet.clone();
    assert_eq!(wallet.delete_category(&String::from("Nothing")), Err(WalletError::DeletionError));
    assert_eq!(wallet.size(), 2);
    assert_eq!(wallet, before);
}

#[test]
fn delete_category_takes_items_and_entries_along() {
    let mut wallet = Wallet::new();
    wallet.load(DATABASE).unwrap();
    assert_eq!(wallet.delete_category(&String::from("Websites")), Ok(true));
    assert_eq!(wallet.size(), 1);
    assert!(wallet.get_category(&String::from("Websites")).is_err());
    assert_eq!(
        wallet.save().unwrap(),
        r#"{"Bank Accounts":{"Starling":{"Account Number":"12345678","Name":"Mr John Doe","Sort Code":"12-34-56"}}}"#
    );
}

#[test]
fn remove_category_hands_the_category_out() {
    let mut wallet = Wallet::new();
    wallet.load(DATABASE).unwrap();
    let taken = wallet.remove_category(&String::from("Websites")).unwrap();
    assert_eq!(taken.get_ident(), "Websites");
    assert_eq!(taken.size(), 3);
    assert!(wallet.remove_category(&String::from("Websites")).is_none());
}

#[test]
fn categories_are_walked_in_ascending_order() {
    let mut wallet = Wallet::new();
    for name in ["delta", "alpha", "charlie", "bravo", "alpha"] {
        wallet.new_category(&name.to_string());
    }
    assert_eq!(wallet.category_count(), 4);
    let names: Vec<String> =
        (0..wallet.category_count()).map(|i| wallet.category_key_at(i).clone()).collect();
    assert_eq!(names, vec!["alpha", "bravo", "charlie", "delta"]);
    assert_eq!(wallet.category_at(2).get_ident(), "charlie");
}
