use cans::mime::{insert_mime_types, manage_mime_types, remove_mime_types, set_mime_types};
use cans::world::{City, Country};

#[test]
fn city_lookup_and_json() {
    let cm = Country::new();
    assert_eq!(cm.city_detail("US", "Washington, D.C.", "gmt"), "GMT-5, GMT-4");
    assert_eq!(cm.city_detail("US", "New York", "latitude"), "40.730610");
    assert!(cm.city_detail("US", "Washington, D.C.", "invalid_key").is_empty());
    assert!(cm.city_detail("FR", "Nonexistent City", "name").is_empty());
    assert_eq!(
        cm.city_details("US", "Washington, D.C."),
        r#"{ "name": "Washington, D.C.", "gmt": ["GMT-5", "GMT-4"], "latitude": "38.89511", "longitude": "-77.03637", "altitude": "125" }"#
    );
    assert_eq!(
        cm.city_details("FR", "Nonexistent City"),
        r#"{ "name": "", "gmt": [], "latitude": "", "longitude": "", "altitude": "" }"#
    );
}

#[test]
fn country_lookup_and_json() {
    let cm = Country::new();
    assert_eq!(cm.country_detail("US", "name"), "United States");
    assert_eq!(cm.country_detail("BH", "calling_code"), "973");
    assert_eq!(cm.country_detail("US", "invalid_key"), "");
    assert_eq!(cm.country_detail("XYZ", "name"), "");
    assert_eq!(
        cm.country_detail("BH", "cities"),
        r#"[{ "name": "Manama", "gmt": ["GMT+3"], "latitude": "26.22787", "longitude": "50.58565", "altitude": "10" }, { "name": "Riffa", "gmt": ["GMT+3"], "latitude": "26.129999", "longitude": "50.555000", "altitude": "15" }]"#
    );
    assert_eq!(
        cm.country_details("XYZ"),
        r#"{ "flag": "", "calling_code": "", "name": "", "capital": "", "currency": "", "cities": [] }"#
    );
    let mut one = Country::new();
    one.delete_all();
    one.insert_one("FR", vec!["F", "33", "France", "EUR", "Paris"], vec![]);
    assert_eq!(
        one.country_details("FR"),
        r#"{ "flag": "F", "calling_code": "33", "name": "France", "capital": "Paris", "currency": "EUR", "cities": [] }"#
    );
}

#[test]
fn countries_insert_and_delete() {
    let mut cm = Country::new();
    assert_eq!(cm.retrieve().len(), 8);
    cm.delete_many(&["BH", "CA"]);
    assert_eq!(cm.retrieve().len(), 6);
    cm.delete_one("US");
    assert!(!cm.retrieve().contains_key("US"));
    cm.insert_many(vec![
        ("IT", vec!["I", "39", "Italy", "EUR", "Rome"], vec![]),
        ("DZ", vec!["D", "213", "Algeria", "DZD", "Algiers"], vec![]),
    ]);
    assert_eq!(cm.retrieve().len(), 6);
    assert_eq!(cm.country_detail("IT", "capital"), "Rome");
    assert_eq!(cm.country_detail("DZ", "flag"), "D");
    cm.delete_all();
    assert_eq!(cm.retrieve().len(), 0);
}

#[test]
fn cities_insert_replace_delete() {
    let mut cm = Country::new();
    cm.insert_one_city(
        "US",
        City { name: "New York", gmt: vec!["X"], latitude: "1", longitude: "2", altitude: "3" },
    );
    assert_eq!(cm.city_detail("US", "New York", "gmt"), "X");
    cm.insert_many_cities(
        "US",
        vec![
            City { name: "Dallas", gmt: vec!["GMT-06:00"], latitude: "32.77666", longitude: "-96.79699", altitude: "129" },
            City { name: "Dallas", gmt: vec!["GMT-6"], latitude: "0", longitude: "0", altitude: "0" },
        ],
    );
    assert_eq!(cm.city_detail("US", "Dallas", "gmt"), "GMT-6");
    cm.delete_one_city("US", "Dallas");
    assert_eq!(cm.city_detail("US", "Dallas", "name"), "");
    cm.delete_many_cities("CA", &["Ottawa", "Toronto"]);
    assert_eq!(cm.country_detail("CA", "cities"), "[]");
    cm.delete_all_cities("US");
    assert_eq!(cm.country_detail("US", "cities"), "[]");
    cm.insert_one_city("ZZ", City { name: "Q", gmt: vec![], latitude: "", longitude: "", altitude: "" });
    assert_eq!(cm.retrieve().len(), 8);
}

#[test]
fn sorting_by_name() {
    let cm = Country::new();
    let asc: Vec<&str> = cm.sort_asc().iter().map(|d| d.name).collect();
    assert_eq!(
        asc,
        vec!["Algeria", "Bahrain", "Canada", "Saudi Arabia", "Sudan", "United Kingdom", "United Kingdom", "United States"]
    );
    let desc: Vec<&str> = cm.sort_desc().iter().map(|d| d.name).collect();
    assert_eq!(
        desc,
        vec!["United States", "United Kingdom", "United Kingdom", "Sudan", "Saudi Arabia", "Canada", "Bahrain", "Algeria"]
    );
}

#[test]
fn mime_bulk_operations() {
    let mut m = set_mime_types();
    let before = m.len();
    assert_eq!(m.get("xml"), Some(&"application/xml".to_string()));
    assert_eq!(m.get("so"), Some(&"application/x-sharedlib".to_string()));
    let extra = manage_mime_types(&[("html", "text/x-html"), ("some_ext", "some_mime")]);
    insert_mime_types(&mut m, extra);
    assert_eq!(m.len(), before + 1);
    assert_eq!(m.get("html"), Some(&"text/x-html".to_string()));
    let gone = manage_mime_types(&[("html", ""), ("nope", "")]);
    remove_mime_types(&mut m, gone);
    assert_eq!(m.len(), before);
    assert_eq!(m.get("html"), None);
}
