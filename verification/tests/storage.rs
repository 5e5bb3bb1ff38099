use cli_kv::storage::Storage;
use cli_kv::storage::StoreError;

#[test]
fn test_add_values() {
    let mut storage = Storage::new_in_memory();
    assert_eq!(0, storage.len());

    storage.add("key", "hehe");
    assert_eq!(1, storage.len());

    let val = storage.get("key").unwrap();
    assert_eq!("hehe", val);

    storage.add("key", "hehe1");
    assert_eq!(1, storage.len());

    let val = storage.get("key").unwrap();
    assert_eq!("hehe", val);

    storage.add("key3", "hehe3");
    assert_eq!(2, storage.len());

    let val = storage.get("key3").unwrap();
    assert_eq!("hehe3", val);
}

#[test]
fn test_get_values() {
    let mut storage = Storage::new_in_memory();
    assert_eq!(0, storage.len());

    storage.add("key0", "hehe0");
    storage.add("key1", "hehe1");
    storage.add("key2", "hehe2");
    storage.add("key3", "hehe3");

    assert_eq!(4, storage.len());

    let val0 = storage.get("key0").unwrap();
    assert_eq!("hehe0", val0);

    let val1 = storage.get("key1").unwrap();
    assert_eq!("hehe1", val1);

    let val2 = storage.get("key2").unwrap();
    assert_eq!("hehe2", val2);

    let val3 = storage.get("key3").unwrap();
    assert_eq!("hehe3", val3);

    match storage.get("key4") {
        Some(_) => panic!("not hehe"),
        None => {}
    }
}

#[test]
fn test_update_values() {
    let mut storage = Storage::new_in_memory();
    assert_eq!(0, storage.len());

    storage.add("key0", "hehe0");
    storage.add("key1", "hehe1");

    assert_eq!(2, storage.len());

    let val0 = storage.get("key0").unwrap();
    assert_eq!("hehe0", val0);

    let val1 = storage.get("key1").unwrap();
    assert_eq!("hehe1", val1);

    storage.update("key0", "hehe");
    assert_eq!(2, storage.len());

    let val0 = storage.get("key0").unwrap();
    assert_eq!("hehe", val0);

    let val1 = storage.get("key1").unwrap();
    assert_eq!("hehe1", val1);

    storage.update("notexists", "nothehe");
    assert_eq!(2, storage.len());

    let val0 = storage.get("key0").unwrap();
    assert_eq!("hehe", val0);

    let val1 = storage.get("key1").unwrap();
    assert_eq!("hehe1", val1);
}

#[test]
fn test_remove_values() {
    let mut storage = Storage::new_in_memory();
    assert_eq!(0, storage.len());

    storage.add("key0", "hehe0");
    storage.add("key1", "hehe1");

    assert_eq!(2, storage.len());

    storage.remove("key0");
    match storage.get("key0") {
        Some(_) => panic!("not hehe"),
        None => {}
    }

    let val1 = storage.get("key1").unwrap();
    assert_eq!("hehe1", val1);

    assert_eq!(1, storage.len());

    storage.remove("notexists");
    let val1 = storage.get("key1").unwrap();
    assert_eq!("hehe1", val1);

    assert_eq!(1, storage.len());
}

#[test]
fn scenario_add_twice_keeps_first() {
    let mut storage = Storage::new_in_memory();
    storage.add("a", "1");
    storage.add("a", "2");
    assert_eq!("1", storage.get("a").unwrap());
}

#[test]
fn scenario_add_then_update() {
    let mut storage = Storage::new_in_memory();
    storage.add("a", "1");
    storage.update("a", "2");
    assert_eq!("2", storage.get("a").unwrap());
}

#[test]
fn scenario_update_same_value_noop() {
    let mut storage = Storage::new_in_memory();
    storage.add("a", "1");
    storage.update("a", "1");
    assert_eq!("1", storage.get("a").unwrap());
    assert_eq!(1, storage.len());
}

#[test]
fn scenario_update_absent_stays_absent() {
    let mut storage = Storage::new_in_memory();
    storage.update("ghostkey", "v");
    assert!(storage.get("ghostkey").is_none());
    assert_eq!(0, storage.len());
}

#[test]
fn scenario_remove_missing_is_noop() {
    let mut storage = Storage::new_in_memory();
    storage.remove("missing");
    assert_eq!(0, storage.len());
}

#[test]
fn load_empty_text_gives_empty_mapping() {
    let storage =
        Storage::open_from_text("folder".to_string(), "folder/file.json".to_string(), "")
            .unwrap();
    assert_eq!(0, storage.len());
}

#[test]
fn load_malformed_text_is_parse_error() {
    let r = Storage::open_from_text("folder".to_string(), "folder/file.json".to_string(), "{not json");
    match r {
        Ok(_) => panic!("malformed text must not load"),
        Err(e) => assert_eq!(StoreError::ParseError, e),
    }
}

#[test]
fn load_non_flat_object_is_parse_error() {
    let r = Storage::open_from_text("f".to_string(), "f/s.json".to_string(), "{\"a\": 1}");
    match r {
        Ok(_) => panic!("a non-string value must not load"),
        Err(e) => assert_eq!(StoreError::ParseError, e),
    }
    let r = Storage::open_from_text("f".to_string(), "f/s.json".to_string(), "[\"a\"]");
    match r {
        Ok(_) => panic!("an array must not load"),
        Err(e) => assert_eq!(StoreError::ParseError, e),
    }
    let r = Storage::open_from_text("f".to_string(), "f/s.json".to_string(), "{} trailing");
    match r {
        Ok(_) => panic!("trailing content must not load"),
        Err(e) => assert_eq!(StoreError::ParseError, e),
    }
}

#[test]
fn load_with_empty_path_is_config_error() {
    let r = Storage::open_from_text("".to_string(), "f/s.json".to_string(), "");
    match r {
        Ok(_) => panic!("an empty folder path must not load"),
        Err(e) => assert_eq!(StoreError::ConfigError, e),
    }
    let r = Storage::open_from_text("f".to_string(), "".to_string(), "");
    match r {
        Ok(_) => panic!("an empty file path must not load"),
        Err(e) => assert_eq!(StoreError::ConfigError, e),
    }
}

#[test]
fn load_object_with_whitespace() {
    let storage = Storage::open_from_text(
        "f".to_string(),
        "f/s.json".to_string(),
        " { \"a\" : \"1\" , \"b\" : \"2\" } ",
    )
    .unwrap();
    assert_eq!(2, storage.len());
    assert_eq!("1", storage.get("a").unwrap());
    assert_eq!("2", storage.get("b").unwrap());
}

#[test]
fn backing_text_is_exact_json() {
    let mut storage =
        Storage::open_from_text("f".to_string(), "f/s.json".to_string(), "").unwrap();
    storage.add("x", "y");
    let text = storage.to_backing_text().unwrap();
    assert_eq!("{\"x\":\"y\"}", text);
}

#[test]
fn scenario_persist_then_reload() {
    let mut storage =
        Storage::open_from_text("f".to_string(), "f/s.json".to_string(), "").unwrap();
    storage.add("x", "y");
    let text = storage.to_backing_text().unwrap();

    let reloaded =
        Storage::open_from_text("f".to_string(), "f/s.json".to_string(), text.as_str()).unwrap();
    assert_eq!("y", reloaded.get("x").unwrap());
    assert_eq!(1, reloaded.len());
}

#[test]
fn round_trip_keeps_every_entry() {
    let mut storage = Storage::new_in_memory();
    storage.add("plain", "value");
    storage.add("quote\"backslash\\", "line\nbreak\ttab");
    storage.add("unicode \u{00e9}\u{4e16}", "control \u{0001} char");
    storage.add("", "empty key is still a key");
    let text = storage.to_backing_text().unwrap();

    let reloaded =
        Storage::open_from_text("f".to_string(), "f/s.json".to_string(), text.as_str()).unwrap();
    assert_eq!(4, reloaded.len());
    assert_eq!("value", reloaded.get("plain").unwrap());
    assert_eq!("line\nbreak\ttab", reloaded.get("quote\"backslash\\").unwrap());
    assert_eq!("control \u{0001} char", reloaded.get("unicode \u{00e9}\u{4e16}").unwrap());
    assert_eq!("empty key is still a key", reloaded.get("").unwrap());
}
