use itunes_library::property_list::{
    parse_events, read_property_list, to_i32, to_string, PropertyListDict, PropertyListValue,
    XmlToken,
};
use itunes_library::ReadError;

fn plist(body: &str) -> Vec<u8> {
    format!(
        "<?xml version=\"1.0\" encoding=\"UTF-8\"?>\n<plist version=\"1.0\">\n<dict>\n{}\n</dict>\n</plist>\n",
        body
    )
    .into_bytes()
}

fn read(body: &str) -> PropertyListDict {
    match read_property_list(&plist(body)) {
        Ok(d) => d,
        Err(_) => panic!("the document should parse"),
    }
}

fn text(d: &PropertyListDict, key: &str) -> Option<String> {
    d.get(key).and_then(to_string)
}

fn int_at(d: &PropertyListDict, key: &str) -> Option<i32> {
    d.get(key).and_then(to_i32)
}

#[test]
fn distinct_keys_give_one_entry_each() {
    let d = read(
        "<key>a</key><string>x</string>\n<key>b</key><integer>5</integer>\n<key>c</key><date>2020-01-01T00:00:00Z</date>\n<key>d</key><true/>",
    );
    assert_eq!(d.entries.len(), 4);
    assert!(matches!(d.get("a"), Some(PropertyListValue::String(s)) if s == "x"));
    assert!(matches!(d.get("b"), Some(PropertyListValue::Integer(5))));
    assert!(matches!(d.get("c"), Some(PropertyListValue::Date(s)) if s == "2020-01-01T00:00:00Z"));
    assert!(matches!(d.get("d"), Some(PropertyListValue::Boolean(true))));
    assert!(d.get("e").is_none());
}

#[test]
fn duplicate_key_last_occurrence_wins() {
    let d = read("<key>a</key><string>first</string><key>b</key><false/><key>a</key><string>second</string>");
    assert_eq!(d.entries.len(), 2);
    assert_eq!(text(&d, "a"), Some("second".to_string()));
    assert!(matches!(d.get("b"), Some(PropertyListValue::Boolean(false))));
}

#[test]
fn array_of_dicts_in_source_order() {
    let d = read(
        "<key>list</key><array><dict><key>n</key><integer>1</integer></dict><dict><key>n</key><integer>2</integer></dict><dict></dict></array><key>after</key><string>z</string>",
    );
    match d.get("list") {
        Some(PropertyListValue::Array(items)) => {
            assert_eq!(items.len(), 3);
            let ns: Vec<Option<i32>> = items
                .iter()
                .map(|v| match v {
                    PropertyListValue::Dict(inner) => int_at(inner, "n"),
                    _ => panic!("array item should be a dict"),
                })
                .collect();
            assert_eq!(ns, vec![Some(1), Some(2), None]);
        }
        _ => panic!("list should be an array"),
    }
    assert_eq!(text(&d, "after"), Some("z".to_string()));
}

#[test]
fn array_string_child_is_skipped() {
    let d = read("<key>list</key><array><string>s</string><dict></dict></array>");
    match d.get("list") {
        Some(PropertyListValue::Array(items)) => {
            assert_eq!(items.len(), 1);
            assert!(matches!(&items[0], PropertyListValue::Dict(inner) if inner.entries.is_empty()));
        }
        _ => panic!("list should be an array"),
    }
    let only_string = read("<key>list</key><array><string>s</string></array>");
    assert!(matches!(only_string.get("list"), Some(PropertyListValue::Array(items)) if items.is_empty()));
}

#[test]
fn integer_text_is_parsed_in_base_ten() {
    let d = read("<key>good</key><integer>42</integer><key>bad</key><integer>4a</integer><key>neg</key><integer>-17</integer><key>big</key><integer>2147483648</integer>");
    assert_eq!(int_at(&d, "good"), Some(42));
    assert!(d.get("bad").is_none());
    assert_eq!(int_at(&d, "neg"), Some(-17));
    assert!(d.get("big").is_none());
    assert_eq!(d.entries.len(), 2);
}

#[test]
fn empty_string_element_is_absent() {
    let d = read("<key>empty</key><string></string><key>next</key><string>v</string>");
    assert!(d.get("empty").is_none());
    assert_eq!(text(&d, "next"), Some("v".to_string()));
}

#[test]
fn unknown_element_is_skipped() {
    let d = read("<key>blob</key><data>AAAA</data><key>x</key><integer>3</integer>");
    assert!(d.get("blob").is_none());
    assert_eq!(int_at(&d, "x"), Some(3));
}

#[test]
fn nested_dict_is_read() {
    let d = read("<key>outer</key><dict><key>inner</key><string>v</string></dict><key>tail</key><integer>9</integer>");
    match d.get("outer") {
        Some(PropertyListValue::Dict(inner)) => assert_eq!(text(inner, "inner"), Some("v".to_string())),
        _ => panic!("outer should be a dict"),
    }
    assert_eq!(int_at(&d, "tail"), Some(9));
}

#[test]
fn malformed_xml_is_a_parse_error() {
    let r = read_property_list(b"<plist><dict><key>a</key><string>x</string>");
    assert!(matches!(r, Err(ReadError::Parse(_))));
    let r = read_property_list(b"<plist><dict><key>a</key><string>x</dict></plist>");
    assert!(matches!(r, Err(ReadError::Parse(_))));
}

#[test]
fn value_accessors() {
    assert_eq!(to_i32(&PropertyListValue::Integer(7)), Some(7));
    assert_eq!(to_i32(&PropertyListValue::String("7".to_string())), None);
    assert_eq!(to_string(&PropertyListValue::String("s".to_string())), Some("s".to_string()));
    assert_eq!(to_string(&PropertyListValue::Date("d".to_string())), Some("d".to_string()));
    assert_eq!(to_string(&PropertyListValue::Boolean(true)), None);
}

#[test]
fn dict_insert_replaces_existing_key() {
    let mut d = PropertyListDict::new();
    d.insert("k".to_string(), PropertyListValue::Integer(1));
    d.insert("j".to_string(), PropertyListValue::Integer(2));
    d.insert("k".to_string(), PropertyListValue::Integer(3));
    assert_eq!(d.entries.len(), 2);
    assert_eq!(d.entries[0].0, "k");
    assert_eq!(int_at(&d, "k"), Some(3));
    assert_eq!(int_at(&d, "j"), Some(2));
}

fn start(n: &str) -> Result<XmlToken, xml::reader::Error> {
    Ok(XmlToken::StartElement(n.to_string()))
}

fn end(n: &str) -> Result<XmlToken, xml::reader::Error> {
    Ok(XmlToken::EndElement(n.to_string()))
}

fn chars(t: &str) -> Result<XmlToken, xml::reader::Error> {
    Ok(XmlToken::Characters(t.to_string()))
}

#[test]
fn events_end_at_first_closing_dict() {
    let events = vec![
        Ok(XmlToken::Other),
        start("dict"),
        start("key"),
        chars("a"),
        end("key"),
        start("integer"),
        chars("1"),
        end("integer"),
        end("dict"),
        start("key"),
        chars("b"),
        end("key"),
        start("true"),
        end("true"),
        Ok(XmlToken::EndDocument),
    ];
    let d = match parse_events(events) {
        Ok(d) => d,
        Err(_) => panic!("the events should parse"),
    };
    assert_eq!(d.entries.len(), 1);
    assert_eq!(int_at(&d, "a"), Some(1));
}

#[test]
fn truncated_events_end_the_dict() {
    let events = vec![start("dict"), start("key"), chars("a"), end("key"), start("string"), chars("v"), Ok(XmlToken::EndDocument)];
    let d = match parse_events(events) {
        Ok(d) => d,
        Err(_) => panic!("the events should parse"),
    };
    assert_eq!(text(&d, "a"), Some("v".to_string()));
}
