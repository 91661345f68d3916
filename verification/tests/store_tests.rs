use record_store::{
    decode_file, decode_item, encode_line, FileStore, Id, IdPolicy, Item, Status, Store,
    StoreError,
};

fn token_of(item: &Item) -> String {
    match &item.id {
        Id::Token(t) => t.clone(),
        Id::Num(_) => panic!("expected a token identifier"),
    }
}

#[test]
fn test_filestore_create() {
    let mut file_store = FileStore::new(String::from("data.db"));
    let item = file_store.create(String::from("new todo"));
    let line = encode_line(&item);
    let expected = format!(
        "{{\"id\":\"{}\",\"description\":\"new todo\",\"status\":\"Incomplete\"}}\n",
        token_of(&item)
    );
    assert_eq!(line, expected)
}

#[test]
fn test_filestore_list() {
    let contents = "{\"id\":\"1\",\"description\":\"new todo\",\"status\":\"Incomplete\"}
        {\"id\":\"2\",\"description\":\"new todo 2\",\"status\":\"Incomplete\"}";
    let file_store = FileStore::new(String::from("data.db"));
    let items = file_store.list(contents).unwrap();
    assert_eq!(
        *items.get(0).unwrap(),
        Item {
            status: Status::Incomplete,
            id: Id::Token(String::from("1")),
            description: String::from("new todo"),
        }
    )
}

#[test]
fn create_then_list_appends_last() {
    let mut store = FileStore::new_with_policy(String::from("data.db"), IdPolicy::Sequential);
    let mut file = String::new();
    file.push_str(&encode_line(&store.create(String::from("first"))));
    let item = store.create(String::from("second one"));
    file.push_str(&encode_line(&item));
    let items = store.list(&file).unwrap();
    let last = items.last().unwrap();
    assert_eq!(last.description, "second one");
    assert_eq!(last.status, Status::Incomplete);
    assert_eq!(*last, item);
}

#[test]
fn sequential_ids_count_up_from_one() {
    let mut store = FileStore::new_with_policy(String::from("data.db"), IdPolicy::Sequential);
    let a = store.create(String::from("a"));
    let b = store.create(String::from("b"));
    let c = store.create(String::from("c"));
    assert_eq!(a.id, Id::Num(1));
    assert_eq!(b.id, Id::Num(2));
    assert_eq!(c.id, Id::Num(3));
}

#[test]
fn random_tokens_differ_and_have_uuid_shape() {
    let mut store = FileStore::new(String::from("data.db"));
    let a = token_of(&store.create(String::from("a")));
    let b = token_of(&store.create(String::from("b")));
    assert_ne!(a, b);
    for t in [&a, &b] {
        let chars: Vec<char> = t.chars().collect();
        assert_eq!(chars.len(), 36);
        for (i, c) in chars.iter().enumerate() {
            if i == 8 || i == 13 || i == 18 || i == 23 {
                assert_eq!(*c, '-');
            } else {
                assert!(c.is_ascii_hexdigit() && !c.is_ascii_uppercase());
            }
        }
    }
}

#[test]
fn round_trip_plain_description() {
    let mut store = FileStore::new_with_policy(String::from("data.db"), IdPolicy::Sequential);
    let item = store.create(String::from("water the plants"));
    let line = encode_line(&item);
    let back = decode_item(&line).unwrap();
    assert_eq!(back, item);
}

#[test]
fn round_trip_control_characters_and_quotes() {
    let mut store = FileStore::new(String::from("data.db"));
    let item = store.create(String::from("a\"b\\c\nd\te\u{1}f"));
    let line = encode_line(&item);
    let back = decode_item(&line).unwrap();
    assert_eq!(back, item);
}

#[test]
fn list_returns_all_lines_in_file_order() {
    let mut store = FileStore::new_with_policy(String::from("data.db"), IdPolicy::Sequential);
    let mut file = String::new();
    let mut created = Vec::new();
    for name in ["one", "two", "three"] {
        let item = store.create(String::from(name));
        file.push_str(&encode_line(&item));
        created.push(item);
    }
    let items = store.list(&file).unwrap();
    assert_eq!(items.len(), 3);
    for (got, made) in items.iter().zip(created.iter()) {
        assert_eq!(got, made);
    }
}

#[test]
fn one_malformed_line_fails_the_whole_read() {
    let contents = "{\"id\":1,\"description\":\"ok\",\"status\":\"Incomplete\"}\n\
        {\"id\":2,\"description\":\"missing status\"}\n\
        {\"id\":3,\"description\":\"ok too\",\"status\":\"Incomplete\"}\n";
    let store = FileStore::new(String::from("data.db"));
    assert_eq!(store.list(contents), Err(StoreError::Malformed));
}

#[test]
fn exact_line_for_first_sequential_create() {
    let mut store = FileStore::new_with_policy(String::from("data.db"), IdPolicy::Sequential);
    let item = store.create(String::from("new todo"));
    let line = encode_line(&item);
    assert_eq!(
        line,
        "{\"id\":1,\"description\":\"new todo\",\"status\":\"Incomplete\"}\n"
    );
}

#[test]
fn two_string_id_lines_list_in_order() {
    let contents = "{\"id\":\"1\",\"description\":\"new todo\",\"status\":\"Incomplete\"}\n\
        {\"id\":\"2\",\"description\":\"new todo 2\",\"status\":\"Incomplete\"}\n";
    let store = FileStore::new(String::from("data.db"));
    let items = store.list(contents).unwrap();
    assert_eq!(items.len(), 2);
    assert_eq!(items[0].id, Id::Token(String::from("1")));
    assert_eq!(items[0].description, "new todo");
    assert_eq!(items[1].id, Id::Token(String::from("2")));
}

#[test]
fn empty_contents_list_as_no_records() {
    let store = FileStore::new(String::from("data.db"));
    assert_eq!(store.list("").unwrap(), Vec::new());
}

#[test]
fn blank_lines_are_skipped() {
    let contents = "\n{\"id\":7,\"description\":\"x\",\"status\":\"Complete\"}\n   \n";
    let items = decode_file(contents).unwrap();
    assert_eq!(items.len(), 1);
    assert_eq!(items[0].id, Id::Num(7));
    assert_eq!(items[0].status, Status::Complete);
}

#[test]
fn any_field_order_is_accepted() {
    let line = "{\"status\":\"Incomplete\",\"description\":\"d\",\"id\":42}";
    let item = decode_item(line).unwrap();
    assert_eq!(item.id, Id::Num(42));
    assert_eq!(item.description, "d");
    assert_eq!(item.status, Status::Incomplete);
}

#[test]
fn whitespace_between_tokens_is_accepted() {
    let line = "  { \"id\" : 5 , \"description\" : \"d\" , \"status\" : \"Complete\" }  ";
    let item = decode_item(line).unwrap();
    assert_eq!(item.id, Id::Num(5));
    assert_eq!(item.status, Status::Complete);
}

#[test]
fn unknown_field_is_rejected() {
    let line = "{\"id\":1,\"description\":\"d\",\"status\":\"Incomplete\",\"extra\":1}";
    assert_eq!(decode_item(line), Err(StoreError::Malformed));
}

#[test]
fn repeated_field_is_rejected() {
    let line = "{\"id\":1,\"id\":2,\"description\":\"d\",\"status\":\"Incomplete\"}";
    assert_eq!(decode_item(line), Err(StoreError::Malformed));
}

#[test]
fn missing_field_is_rejected() {
    assert_eq!(decode_item("{\"id\":1,\"status\":\"Incomplete\"}"), Err(StoreError::Malformed));
}

#[test]
fn unknown_status_tag_is_rejected() {
    let line = "{\"id\":1,\"description\":\"d\",\"status\":\"Done\"}";
    assert_eq!(decode_item(line), Err(StoreError::Malformed));
}

#[test]
fn oversized_integer_id_is_rejected() {
    let line = "{\"id\":18446744073709551616,\"description\":\"d\",\"status\":\"Incomplete\"}";
    assert_eq!(decode_item(line), Err(StoreError::Malformed));
}

#[test]
fn largest_integer_id_is_accepted() {
    let line = "{\"id\":18446744073709551615,\"description\":\"d\",\"status\":\"Incomplete\"}";
    assert_eq!(decode_item(line).unwrap().id, Id::Num(u64::MAX));
}

#[test]
fn unicode_escapes_decode() {
    let line = "{\"id\":\"x\",\"description\":\"\\u0041\\n\\t\\\"\\\\\",\"status\":\"Incomplete\"}";
    let item = decode_item(line).unwrap();
    assert_eq!(item.description, "A\n\t\"\\");
}

#[test]
fn store_trait_creates_incomplete_records() {
    let mut store = FileStore::new_with_policy(String::from("data.db"), IdPolicy::Sequential);
    let item = Store::create(&mut store, String::from("via trait"));
    assert_eq!(item.status, Status::Incomplete);
    let file = encode_line(&item);
    let items = Store::list(&store, &file).unwrap();
    assert_eq!(items.len(), 1);
    assert_eq!(items[0], item);
}
