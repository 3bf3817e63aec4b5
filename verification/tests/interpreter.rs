use scraping_instructions::{Error, KVPair, ListScheme, ObjectScheme, Scheme, StringScheme, Value};

fn string_scheme(path: &str) -> Scheme {
    Scheme::String(StringScheme { path: path.to_string() })
}

fn list_scheme(path: &str, element: Scheme) -> Scheme {
    Scheme::List(ListScheme { element_scheme: Box::new(element), path: path.to_string() })
}

fn object_scheme(fields: Vec<(&str, Scheme)>) -> Scheme {
    Scheme::Object(ObjectScheme {
        fields: fields
            .into_iter()
            .map(|(key, value)| KVPair { key: key.to_string(), value })
            .collect(),
    })
}

fn as_str(v: &Value) -> &str {
    match v {
        Value::String(s) => s,
        _ => panic!("expected a string value"),
    }
}

fn as_arr(v: &Value) -> &Vec<Value> {
    match v {
        Value::Array(vs) => vs,
        _ => panic!("expected an array value"),
    }
}

fn as_obj(v: &Value) -> &Vec<(String, Value)> {
    match v {
        Value::Object(entries) => entries,
        _ => panic!("expected an object value"),
    }
}

fn process_many_on(scheme: &Scheme, html: &str) -> Result<Vec<Value>, Error> {
    let doc = scraper::Html::parse_document(html);
    let root = doc.root_element();
    scheme.process_many(&root)
}

#[test]
fn single_match_returns_content() {
    let scheme = string_scheme("h1");
    let v = scheme.process_string("<html><body><h1>Title</h1></body></html>").unwrap();
    assert_eq!(as_str(&v), "Title");
}

#[test]
fn content_keeps_inner_markup() {
    let scheme = string_scheme("p");
    let v = scheme.process_string("<html><body><p>a<b>z</b></p></body></html>").unwrap();
    assert_eq!(as_str(&v), "a<b>z</b>");
}

#[test]
fn zero_matches_fails_naming_path() {
    let scheme = string_scheme("h2");
    let r = scheme.process_string("<html><body><h1>Title</h1></body></html>");
    match r {
        Err(Error::NoElementFound { path }) => assert_eq!(path, "h2"),
        _ => panic!("expected NoElementFound"),
    }
}

#[test]
fn invalid_path_fails_naming_path() {
    let scheme = string_scheme("???");
    let r = scheme.process_string("<html><body><h1>Title</h1></body></html>");
    match r {
        Err(Error::InvalidPath { path }) => assert_eq!(path, "???"),
        _ => panic!("expected InvalidPath"),
    }
}

#[test]
fn object_collects_each_field_under_its_key() {
    let scheme = object_scheme(vec![("heading", string_scheme("h1")), ("body", string_scheme("p"))]);
    let v = scheme
        .process_string("<html><body><h1>Title</h1><p>text</p></body></html>")
        .unwrap();
    let entries = as_obj(&v);
    assert_eq!(entries.len(), 2);
    assert_eq!(entries[0].0, "heading");
    assert_eq!(as_str(&entries[0].1), "Title");
    assert_eq!(entries[1].0, "body");
    assert_eq!(as_str(&entries[1].1), "text");
}

#[test]
fn duplicate_key_overwrites_in_place() {
    let scheme = object_scheme(vec![("k", string_scheme("h1")), ("k", string_scheme("p"))]);
    let v = scheme
        .process_string("<html><body><h1>Title</h1><p>text</p></body></html>")
        .unwrap();
    let entries = as_obj(&v);
    assert_eq!(entries.len(), 1);
    assert_eq!(entries[0].0, "k");
    assert_eq!(as_str(&entries[0].1), "text");
}

#[test]
fn list_of_strings_in_document_order() {
    let scheme = list_scheme("ul", string_scheme("li"));
    let v = scheme
        .process_string("<html><body><ul><li>a</li><li>b</li><li>c</li></ul></body></html>")
        .unwrap();
    let items = as_arr(&v);
    assert_eq!(items.len(), 3);
    assert_eq!(as_str(&items[0]), "a");
    assert_eq!(as_str(&items[1]), "b");
    assert_eq!(as_str(&items[2]), "c");
}

#[test]
fn list_with_no_element_matches_is_empty_not_an_error() {
    let scheme = list_scheme("ul", string_scheme("span"));
    let v = scheme.process_string("<html><body><ul><li>a</li></ul></body></html>").unwrap();
    assert_eq!(as_arr(&v).len(), 0);
}

#[test]
fn list_with_no_anchor_fails_naming_path() {
    let scheme = list_scheme("ol", string_scheme("li"));
    let r = scheme.process_string("<html><body><ul><li>a</li></ul></body></html>");
    match r {
        Err(Error::NoElementFound { path }) => assert_eq!(path, "ol"),
        _ => panic!("expected NoElementFound"),
    }
}

#[test]
fn mismatched_field_counts_fail_with_both_counts() {
    let scheme = object_scheme(vec![("threes", string_scheme("p")), ("twos", string_scheme("h1"))]);
    let r = process_many_on(
        &scheme,
        "<html><body><p>1</p><p>2</p><p>3</p><h1>x</h1><h1>y</h1></body></html>",
    );
    match r {
        Err(Error::MismatchedFieldCount { field, expected, found }) => {
            assert_eq!(field, "twos");
            assert_eq!(expected, 3);
            assert_eq!(found, 2);
        }
        _ => panic!("expected MismatchedFieldCount"),
    }
}

#[test]
fn aligned_fields_zip_by_position() {
    let scheme = object_scheme(vec![("name", string_scheme("span.n")), ("cost", string_scheme("span.c"))]);
    let vs = process_many_on(
        &scheme,
        "<html><body>\
         <div><span class='n'>apple</span><span class='c'>1</span></div>\
         <div><span class='n'>pear</span><span class='c'>2</span></div>\
         </body></html>",
    )
    .unwrap();
    assert_eq!(vs.len(), 2);
    let first = as_obj(&vs[0]);
    assert_eq!(first[0].0, "name");
    assert_eq!(as_str(&first[0].1), "apple");
    assert_eq!(first[1].0, "cost");
    assert_eq!(as_str(&first[1].1), "1");
    let second = as_obj(&vs[1]);
    assert_eq!(as_str(&second[0].1), "pear");
    assert_eq!(as_str(&second[1].1), "2");
}

#[test]
fn list_of_lists_keeps_every_inner_length() {
    let scheme = list_scheme("body", list_scheme("ul", string_scheme("li")));
    let v = scheme
        .process_string(
            "<html><body>\
             <ul><li>a</li><li>b</li></ul>\
             <ul><li>c</li><li>d</li><li>e</li></ul>\
             </body></html>",
        )
        .unwrap();
    let outer = as_arr(&v);
    assert_eq!(outer.len(), 2);
    let first = as_arr(&outer[0]);
    assert_eq!(first.len(), 2);
    assert_eq!(as_str(&first[0]), "a");
    assert_eq!(as_str(&first[1]), "b");
    let second = as_arr(&outer[1]);
    assert_eq!(second.len(), 3);
    assert_eq!(as_str(&second[0]), "c");
    assert_eq!(as_str(&second[1]), "d");
    assert_eq!(as_str(&second[2]), "e");
}

#[test]
fn invalid_path_surfaces_from_a_later_field() {
    let scheme = object_scheme(vec![("good", string_scheme("h1")), ("bad", string_scheme("???"))]);
    let r = scheme.process_string("<html><body><h1>Title</h1></body></html>");
    match r {
        Err(Error::InvalidPath { path }) => assert_eq!(path, "???"),
        _ => panic!("expected InvalidPath"),
    }
}

#[test]
fn invalid_path_surfaces_from_an_earlier_field() {
    let scheme = object_scheme(vec![("bad", string_scheme("{")), ("good", string_scheme("h1"))]);
    let r = scheme.process_string("<html><body><h1>Title</h1></body></html>");
    match r {
        Err(Error::InvalidPath { path }) => assert_eq!(path, "{"),
        _ => panic!("expected InvalidPath"),
    }
}

#[test]
fn invalid_path_surfaces_inside_multi_extraction() {
    let scheme = object_scheme(vec![("good", string_scheme("p")), ("bad", string_scheme("???"))]);
    let r = process_many_on(&scheme, "<html><body><p>1</p></body></html>");
    match r {
        Err(Error::InvalidPath { path }) => assert_eq!(path, "???"),
        _ => panic!("expected InvalidPath"),
    }
}

#[test]
fn wf_rejects_an_empty_object_scheme() {
    let empty = object_scheme(vec![]);
    assert!(!empty.check_wf());
    let nested = list_scheme("ul", object_scheme(vec![]));
    assert!(!nested.check_wf());
}

#[test]
fn wf_accepts_the_usual_shapes() {
    let scheme = object_scheme(vec![
        ("items", list_scheme("ul", object_scheme(vec![("name", string_scheme("li"))]))),
        ("title", string_scheme("h1")),
    ]);
    assert!(scheme.check_wf());
}

#[test]
fn list_of_objects_is_one_record_per_position() {
    let scheme = list_scheme(
        "ul",
        object_scheme(vec![("name", string_scheme("span.n")), ("cost", string_scheme("span.c"))]),
    );
    let v = scheme
        .process_string(
            "<html><body><ul>\
             <li><span class='n'>apple</span><span class='c'>1</span></li>\
             <li><span class='n'>pear</span><span class='c'>2</span></li>\
             <li><span class='n'>plum</span><span class='c'>3</span></li>\
             </ul></body></html>",
        )
        .unwrap();
    let records = as_arr(&v);
    assert_eq!(records.len(), 3);
    let names = ["apple", "pear", "plum"];
    let costs = ["1", "2", "3"];
    for (i, record) in records.iter().enumerate() {
        let entries = as_obj(record);
        assert_eq!(entries.len(), 2);
        assert_eq!(entries[0].0, "name");
        assert_eq!(as_str(&entries[0].1), names[i]);
        assert_eq!(entries[1].0, "cost");
        assert_eq!(as_str(&entries[1].1), costs[i]);
    }
}
