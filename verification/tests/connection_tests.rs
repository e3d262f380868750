use espectro::connection::Connection;

#[test]
fn test_connection_creation() {
    let conn = Connection::new("node1".to_string(), 0, "node2".to_string(), 1);
    assert_eq!(conn.from_node, "node1");
    assert_eq!(conn.from_output, 0);
    assert_eq!(conn.to_node, "node2");
    assert_eq!(conn.to_input, 1);
}

#[test]
fn test_simple_connection() {
    let conn = Connection::simple("a".to_string(), "b".to_string());
    assert_eq!(conn.from_output, 0);
    assert_eq!(conn.to_input, 0);
}
