use serializers::sample::Country;
use serializers::sample::CountrySerializer;
use serializers::sample::FailingSerializer;
use serializers::sample::RenamingSerializer;
use serializers::sample::TwiceSerializer;
use serializers::sample::User;
use serializers::sample::UserSerializer;
use serializers::serialize;
use serializers::serialize_iter;

fn leaf(id: i64, name: &str) -> User {
    User { id, name: name.to_owned(), country: Country { id: 1 }, friends: Vec::new() }
}

#[test]
fn scalar_round_trip() {
    let json = serialize(&CountrySerializer, &Country { id: 7 }).unwrap();
    let parsed: serde_json::Value = serde_json::from_str(&json).unwrap();
    let obj = parsed.as_object().unwrap();
    assert_eq!(obj.len(), 1);
    assert_eq!(obj.get("id").unwrap(), &serde_json::Value::from(7));
}

#[test]
fn attr_same_key_second_write_wins() {
    let json = serialize(&TwiceSerializer, &Country { id: 9 }).unwrap();
    assert_eq!(json, "{\"id\":2}");
}

#[test]
fn has_many_empty_is_empty_array() {
    let json = serialize(&UserSerializer, &leaf(5, "Ada")).unwrap();
    let parsed: serde_json::Value = serde_json::from_str(&json).unwrap();
    let friends = parsed.as_object().unwrap().get("friends").unwrap();
    assert!(friends.is_array());
    assert_eq!(friends.as_array().unwrap().len(), 0);
    assert!(!friends.is_null());
}

#[test]
fn has_many_keeps_input_order() {
    let parent = User {
        id: 0,
        name: "root".to_owned(),
        country: Country { id: 1 },
        friends: vec![leaf(1, "a"), leaf(2, "b"), leaf(3, "c")],
    };
    let json = serialize(&UserSerializer, &parent).unwrap();
    let parsed: serde_json::Value = serde_json::from_str(&json).unwrap();
    let friends = parsed.as_object().unwrap().get("friends").unwrap().as_array().unwrap();
    let ids: Vec<i64> = friends
        .iter()
        .map(|f| f.as_object().unwrap().get("id").unwrap().as_i64().unwrap())
        .collect();
    assert_eq!(ids, vec![1, 2, 3]);
}

#[test]
fn self_referential_mapping_nests() {
    let bob = User {
        id: 1,
        name: "Bob".to_owned(),
        country: Country { id: 1 },
        friends: vec![leaf(2, "Alice")],
    };
    let json = serialize(&UserSerializer, &bob).unwrap();
    assert_eq!(
        json,
        "{\"country\":{\"id\":1},\"friends\":[{\"country\":{\"id\":1},\"friends\":[],\
         \"id\":2,\"name\":\"Alice\"}],\"id\":1,\"name\":\"Bob\"}"
    );
}

#[test]
fn serialize_iter_is_one_array_document() {
    let xs = vec![Country { id: 1 }, Country { id: 2 }];
    let json = serialize_iter(&CountrySerializer, &xs).unwrap();
    assert_eq!(json, "[{\"id\":1},{\"id\":2}]");

    let x_alone = serialize(&CountrySerializer, &xs[0]).unwrap();
    let y_alone = serialize(&CountrySerializer, &xs[1]).unwrap();
    let concatenated = format!("{}{}", x_alone, y_alone);
    assert_ne!(json, concatenated);
    assert!(serde_json::from_str::<serde_json::Value>(&concatenated).is_err());

    let parsed: serde_json::Value = serde_json::from_str(&json).unwrap();
    let elems = parsed.as_array().unwrap();
    assert_eq!(elems.len(), 2);
    assert_eq!(elems[0], serde_json::from_str::<serde_json::Value>(&x_alone).unwrap());
    assert_eq!(elems[1], serde_json::from_str::<serde_json::Value>(&y_alone).unwrap());
}

#[test]
fn serialize_iter_empty_input() {
    let xs: Vec<Country> = Vec::new();
    let json = serialize_iter(&CountrySerializer, &xs).unwrap();
    assert_eq!(json, "[]");
}

#[test]
fn renamed_key_same_value() {
    let json = serialize(&RenamingSerializer, &Country { id: 1 }).unwrap();
    assert_eq!(json, "{\"identifier\":1}");
    let plain = serialize(&CountrySerializer, &Country { id: 1 }).unwrap();
    let renamed: serde_json::Value = serde_json::from_str(&json).unwrap();
    let original: serde_json::Value = serde_json::from_str(&plain).unwrap();
    assert_eq!(
        renamed.as_object().unwrap().get("identifier"),
        original.as_object().unwrap().get("id"),
    );
}

#[test]
fn encoding_failure_aborts_whole_call() {
    let r = serialize(&FailingSerializer, &Country { id: 3 });
    match r {
        Ok(_) => panic!("a failed field must fail the whole call"),
        Err(e) => assert_eq!(e.msg, "no JSON encoding"),
    }
    let many = serialize_iter(&FailingSerializer, &vec![Country { id: 3 }]);
    assert!(many.is_err());
}

#[test]
fn negative_and_boundary_integers() {
    let json = serialize(&CountrySerializer, &Country { id: -12 }).unwrap();
    assert_eq!(json, "{\"id\":-12}");
    let json = serialize(&CountrySerializer, &Country { id: i64::MAX }).unwrap();
    assert_eq!(json, "{\"id\":9223372036854775807}");
    let json = serialize(&CountrySerializer, &Country { id: i64::MIN }).unwrap();
    assert_eq!(json, "{\"id\":-9223372036854775808}");
}

#[test]
fn string_values_are_escaped_by_renderer() {
    let user = leaf(4, "a\"b\\c");
    let json = serialize(&UserSerializer, &user).unwrap();
    let parsed: serde_json::Value = serde_json::from_str(&json).unwrap();
    assert_eq!(
        parsed.as_object().unwrap().get("name").unwrap(),
        &serde_json::Value::String("a\"b\\c".to_owned()),
    );
}
