use jsonlog::{log, log_with_timestamp, stdout_log, Atom, BufferOutputter, Entry, Level, Outputter, Value};

fn parse(text: &str) -> serde_json::Value {
    serde_json::from_str(text).expect("couldn't deserialize logline, invalid json")
}

#[test]
fn outputter_() {
    let uint: u64 = 12345678901234567890;
    let iint: i64 = -1234567890123456789;
    let empty_string = String::new();
    let single_quote = String::from("\"");
    let single_newline = String::from("\n");
    let multi_line = String::from("\thello\r\n\tMy name is Bob\r\n\t\"boo\"\r\n\tend");
    let tab_indent = String::from("\thello world");
    let mut out = BufferOutputter::new();

    out.write_json_start();

    // uint and iint
    out.write_json_key("uint");
    out.write_str(&jsonlog::utoa_base10(uint));
    out.write_json_comma();
    out.write_json_key("iint");
    out.write_str(&jsonlog::itoa_base10(iint));
    out.write_json_comma();

    // t and f
    out.write_json_key("t");
    out.write_json_bool(true);
    out.write_json_comma();
    out.write_json_key("f");
    out.write_json_bool(false);
    out.write_json_comma();

    // Strings
    out.write_json_key("empty_string");
    out.write_json_string(&empty_string);
    out.write_json_comma();
    out.write_json_key("single_quote");
    out.write_json_string(&single_quote);
    out.write_json_comma();
    out.write_json_key("single_newline");
    out.write_json_string(&single_newline);
    out.write_json_comma();
    out.write_json_key("tab_indent");
    out.write_json_string(&tab_indent);
    out.write_json_comma();
    out.write_json_key("multi_line");
    out.write_json_string(&multi_line);

    // Null value
    out.write_json_comma();
    out.write_json_key("null");
    out.write_json_null();
    out.write_json_comma();
    out.write_json_key("null_array");
    out.write_json_null();

    out.write_json_end();
    out.endline();

    let log_line = parse(out.as_str());

    assert_eq!(out.fin_count, 1);

    assert_eq!(log_line["uint"].as_u64(), Some(uint));
    assert_eq!(log_line["iint"].as_i64(), Some(iint));
    assert_eq!(log_line["t"].as_bool(), Some(true));
    assert_eq!(log_line["f"].as_bool(), Some(false));
    assert_eq!(log_line["empty_string"].as_str(), Some(&empty_string[..]));
    assert_eq!(log_line["single_quote"].as_str(), Some(&single_quote[..]));
    assert_eq!(log_line["single_newline"].as_str(), Some(&single_newline[..]));
    assert_eq!(log_line["tab_indent"].as_str(), Some(&tab_indent[..]));
    assert_eq!(log_line["multi_line"].as_str(), Some(&multi_line[..]));
    assert!(log_line["null"].is_null());
    assert!(log_line["null_array"].is_null());
}

#[test]
fn log_no_entries() {
    let msg = "hello world";
    let level = Level::Info;

    let mut out = BufferOutputter::new();
    let entries: Vec<Entry> = vec![];
    log(None, &mut out, msg, level, &entries);

    let log_line = parse(out.as_str());

    assert_eq!(log_line["msg"].as_str(), Some(msg));
    assert_eq!(log_line["level"].as_str(), Some(level.as_str()));
}

#[test]
fn log_entries() {
    let msg = "hello world";
    let level = Level::Info;
    let resource_id: u64 = 9876543210123456789;
    let healthy = true;
    let some_nums: [i64; 4] = [-3, 0, 7, 9000000000000000000];
    let two_strings = [String::from(""), String::from("boo")];
    let opt_array = [
        String::from("hello"),
        String::from("goose"),
        String::from("world"),
    ];

    let mut out = BufferOutputter::new();
    let entries: Vec<Entry> = vec![
        Entry {
            key: String::from("resource_id"),
            value: Value::Atom(Atom::Uint(resource_id)),
        },
        Entry {
            key: String::from("healthy"),
            value: Value::Atom(Atom::Bool(healthy)),
        },
        Entry {
            key: String::from("some_nums"),
            value: Value::Array(some_nums.iter().map(|i| Atom::Int(*i)).collect()),
        },
        Entry {
            key: String::from("two_strings"),
            value: Value::Array(two_strings.iter().map(|s| Atom::Text(s.clone())).collect()),
        },
        Entry {
            key: String::from("null_array"),
            value: Value::Optarray(None),
        },
        Entry {
            key: String::from("opt_array"),
            value: Value::Optarray(Some(
                opt_array.iter().map(|s| Atom::Text(s.clone())).collect(),
            )),
        },
    ];
    log(None, &mut out, msg, level, &entries);

    let log_line = parse(out.as_str());

    assert_eq!(log_line["msg"].as_str(), Some(msg));
    assert_eq!(log_line["level"].as_str(), Some(level.as_str()));
    assert_eq!(log_line["resource_id"].as_u64(), Some(resource_id));
    assert_eq!(log_line["healthy"].as_bool(), Some(healthy));
    let nums: Vec<i64> = log_line["some_nums"]
        .as_array()
        .unwrap()
        .iter()
        .map(|v| v.as_i64().unwrap())
        .collect();
    assert_eq!(nums, some_nums);
    let strings: Vec<&str> = log_line["two_strings"]
        .as_array()
        .unwrap()
        .iter()
        .map(|v| v.as_str().unwrap())
        .collect();
    assert_eq!(strings, two_strings);
    assert!(log_line["null_array"].is_null());
    let opts: Vec<&str> = log_line["opt_array"]
        .as_array()
        .unwrap()
        .iter()
        .map(|v| v.as_str().unwrap())
        .collect();
    assert_eq!(opts, opt_array);
}

#[test]
fn log_no_entries_exact_keys() {
    let mut out = BufferOutputter::new();
    let entries: Vec<Entry> = vec![];
    log(None, &mut out, "boo", Level::Error, &entries);

    let log_line = parse(out.as_str());
    let obj = log_line.as_object().unwrap();
    assert_eq!(obj.len(), 2);
    assert!(obj.contains_key("level"));
    assert!(obj.contains_key("msg"));
}

#[test]
fn service_field_present() {
    let mut out = BufferOutputter::new();
    let entries: Vec<Entry> = vec![];
    log(Some("gateway"), &mut out, "up", Level::Warn, &entries);

    let log_line = parse(out.as_str());
    assert_eq!(log_line["service"].as_str(), Some("gateway"));
    assert_eq!(log_line["level"].as_str(), Some("warn"));
    assert_eq!(log_line["msg"].as_str(), Some("up"));
}

#[test]
fn optarray_none_is_null_not_empty() {
    let mut out = BufferOutputter::new();
    let entries: Vec<Entry> = vec![Entry {
        key: String::from("maybe"),
        value: Value::Optarray(None),
    }];
    log(None, &mut out, "m", Level::Info, &entries);

    let log_line = parse(out.as_str());
    let obj = log_line.as_object().unwrap();
    assert!(obj.contains_key("maybe"));
    assert!(log_line["maybe"].is_null());
    assert!(!log_line["maybe"].is_array());
}

#[test]
fn optatom_variants() {
    let mut out = BufferOutputter::new();
    let entries: Vec<Entry> = vec![
        Entry {
            key: String::from("present"),
            value: Value::Optatom(Some(Atom::Int(-5))),
        },
        Entry {
            key: String::from("absent"),
            value: Value::Optatom(None),
        },
        Entry {
            key: String::from("empty"),
            value: Value::Array(vec![]),
        },
    ];
    log(None, &mut out, "m", Level::Info, &entries);

    let log_line = parse(out.as_str());
    assert_eq!(log_line["present"].as_i64(), Some(-5));
    assert!(log_line["absent"].is_null());
    assert_eq!(log_line["empty"].as_array().unwrap().len(), 0);
}

#[test]
fn end_to_end_info_record() {
    let mut out = BufferOutputter::new();
    let entries: Vec<Entry> = vec![
        Entry {
            key: String::from("resource_id"),
            value: Value::Atom(Atom::Uint(42)),
        },
        Entry {
            key: String::from("healthy"),
            value: Value::Atom(Atom::Bool(true)),
        },
    ];
    log(None, &mut out, "hello world", Level::Info, &entries);

    let log_line = parse(out.as_str());
    assert_eq!(log_line["level"].as_str(), Some("info"));
    assert_eq!(log_line["msg"].as_str(), Some("hello world"));
    assert_eq!(log_line["resource_id"].as_u64(), Some(42));
    assert_eq!(log_line["healthy"].as_bool(), Some(true));
}

#[test]
fn text_atom_round_trips() {
    let original = "\tA \"quoted\"\r\nline\t";
    let mut out = BufferOutputter::new();
    let entries: Vec<Entry> = vec![Entry {
        key: String::from("t"),
        value: Value::Atom(Atom::Text(String::from(original))),
    }];
    log(None, &mut out, original, Level::Info, &entries);

    let log_line = parse(out.as_str());
    assert_eq!(log_line["t"].as_str(), Some(original));
    assert_eq!(log_line["msg"].as_str(), Some(original));
}

#[test]
fn escape_edge_positions() {
    for original in [
        "",
        "plain",
        "\"",
        "\\",
        "\"\"\\\\",
        "\nstart",
        "end\t",
        "\r\n\t\"\\",
        "a\\\"b",
    ] {
        let mut out = BufferOutputter::new();
        out.write_json_string(original);
        let token = parse(out.as_str());
        assert_eq!(token.as_str(), Some(original));
    }
}

#[test]
fn float_atom_entries() {
    let finite = 2.5f64;
    let mut buffer = ryu::Buffer::new();
    let finite_token = jsonlog::f64_to_str(finite.to_bits(), buffer.format_finite(finite).to_string());
    let nan_token = jsonlog::f64_to_str(f64::NAN.to_bits(), String::new());

    let mut out = BufferOutputter::new();
    let entries: Vec<Entry> = vec![
        Entry {
            key: String::from("ratio"),
            value: Value::Atom(Atom::Float(finite_token)),
        },
        Entry {
            key: String::from("bad"),
            value: Value::Atom(Atom::Float(nan_token)),
        },
    ];
    log(None, &mut out, "m", Level::Info, &entries);

    let log_line = parse(out.as_str());
    assert_eq!(log_line["ratio"].as_f64(), Some(finite));
    assert_eq!(log_line["bad"].as_str(), Some("Nan"));
}

#[test]
fn level_names() {
    assert_eq!(Level::Debug.as_str(), "debug");
    assert_eq!(Level::Info.as_str(), "info");
    assert_eq!(Level::Warn.as_str(), "warn");
    assert_eq!(Level::Error.as_str(), "error");
}

#[test]
fn timestamped_record_has_ts() {
    let mut out = BufferOutputter::new();
    let entries: Vec<Entry> = vec![];
    log_with_timestamp(None, &mut out, "hello world", Level::Info, &entries);

    let log_line = parse(out.as_str());
    assert_eq!(log_line["msg"].as_str(), Some("hello world"));
    assert_eq!(log_line["level"].as_str(), Some("info"));
    assert!(log_line["ts"].as_str().unwrap().len() > 0);
}

#[test]
fn two_records_two_lines() {
    let mut out = BufferOutputter::new();
    let entries: Vec<Entry> = vec![];
    log(None, &mut out, "first", Level::Info, &entries);
    log(None, &mut out, "second", Level::Error, &entries);

    assert_eq!(out.fin_count, 2);
    let lines: Vec<&str> = out.as_str().lines().collect();
    assert_eq!(lines.len(), 2);
    assert_eq!(parse(lines[0])["msg"].as_str(), Some("first"));
    assert_eq!(parse(lines[1])["level"].as_str(), Some("error"));
}

#[test]
fn stdout_log_smoke() {
    let entries: Vec<Entry> = vec![Entry {
        key: String::from("n"),
        value: Value::Atom(Atom::Uint(1)),
    }];
    stdout_log("hello from the console sink", Level::Info, &entries);
}
