use kzg10::network::Client;

#[test]
fn client_keeps_its_fields() {
    let c = Client::new("alice".to_string(), "http://localhost:3030".to_string());
    assert_eq!(c.id(), "alice");
    assert_eq!(c.server_url(), "http://localhost:3030");
}
