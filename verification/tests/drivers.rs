use primusdb::drivers::{
    parse_connection_string, parse_port, split_text, trim_text, DriverFeature, IsolationLevel, JavaDriver,
    NodeDriver, PythonDriver, RubyDriver, RustDriver,
};

#[test]
fn connection_strings_set_directory_and_port() {
    let c = parse_connection_string("data_dir=/var/db; port = 9000");
    assert_eq!(c.data_dir, "/var/db");
    assert_eq!(c.port, 9000);
    let c = parse_connection_string("  DataDir = ./x ;junk;user=bob");
    assert_eq!(c.data_dir, "./x");
    assert_eq!(c.port, 8080);
    let c = parse_connection_string("port=70000");
    assert_eq!(c.port, 8080);
    let c = parse_connection_string("port=+81;port=82");
    assert_eq!(c.port, 82);
    let c = parse_connection_string("port=7;port=oops");
    assert_eq!(c.port, 8080);
    let c = parse_connection_string("");
    assert_eq!(c.data_dir, "./data");
    assert_eq!(c.port, 8080);
    let c = parse_connection_string("data_dir=a=b");
    assert_eq!(c.data_dir, "a=b");
}

#[test]
fn port_numbers_follow_the_integer_parser() {
    for s in ["0", "80", "+80", "65535", "0065535", "", "+", "-1", "65536", " 80", "8a"] {
        assert_eq!(parse_port(s), s.parse::<u16>().ok(), "{:?}", s);
    }
}

#[test]
fn pieces_and_trimming() {
    assert_eq!(split_text("a;;b", ';'), vec!["a", "", "b"]);
    assert_eq!(split_text("", ';'), vec![""]);
    assert_eq!(trim_text(" \t x y \n"), "x y");
    assert_eq!(trim_text("   "), "");
}

#[test]
fn drivers_and_transactions() {
    assert_eq!(RustDriver.driver_name(), "rust");
    assert_eq!(PythonDriver.driver_name(), "python");
    assert_eq!(NodeDriver.driver_name(), "node");
    assert_eq!(JavaDriver.driver_name(), "java");
    assert_eq!(RubyDriver.driver_name(), "ruby");
    let java = JavaDriver.supported_features();
    assert_eq!(java.len(), 14);
    assert_eq!(java[2], DriverFeature::SSL);
    assert_eq!(RubyDriver.supported_features().len(), 12);
    assert_eq!(RustDriver.supported_features().last(), Some(&DriverFeature::ExtendedDataTypes));
    assert!(PythonDriver.supported_features().contains(&DriverFeature::PreparedStatements));
    let t = PythonDriver.begin_transaction_at(42);
    assert_eq!(t.id, "py_tx_42");
    assert_eq!(t.isolation_level, IsolationLevel::ReadCommitted);
    assert_eq!(RustDriver.begin_transaction_at(5).id, "tx_5");
}
