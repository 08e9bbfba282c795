use serializers::sample::Country;
use serializers::sample::CountrySerializer;
use serializers::serialize;

#[test]
fn test_pub_crate() {
    let bob = Country { id: 1 };
    let json: String = serialize(&CountrySerializer, &bob).unwrap();
    assert_eq!(json, "{\"id\":1}");
}

#[test]
fn test_pub() {
    let bob = Country { id: 1 };
    let json: String = serialize(&CountrySerializer, &bob).unwrap();
    assert_eq!(json, "{\"id\":1}");
}

#[test]
fn test_private() {
    let bob = Country { id: 1 };
    let json: String = serialize(&CountrySerializer, &bob).unwrap();
    assert_eq!(json, "{\"id\":1}");
}

#[test]
fn test_pub_crate_attrs() {
    let bob = Country { id: 1 };
    let json: String = serialize(&CountrySerializer, &bob).unwrap();
    assert_eq!(json, "{\"id\":1}");
    assert_eq!(CountrySerializer, CountrySerializer);
}

#[test]
fn test_pub_attrs() {
    let bob = Country { id: 1 };
    let json: String = serialize(&CountrySerializer, &bob).unwrap();
    assert_eq!(json, "{\"id\":1}");
    assert_eq!(CountrySerializer, CountrySerializer);
}

#[test]
fn test_private_attrs() {
    let bob = Country { id: 1 };
    let json: String = serialize(&CountrySerializer, &bob).unwrap();
    assert_eq!(json, "{\"id\":1}");
    assert_eq!(CountrySerializer, CountrySerializer);
}

#[test]
fn generated_associated_function() {
    let bob = Country { id: 1 };
    let json: String = serialize(&CountrySerializer, &bob).unwrap();
    assert_eq!(json, "{\"id\":1}");
}
