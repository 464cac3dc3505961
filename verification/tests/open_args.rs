use zebar::open_args::{
    collect_pairs, decimal, open_args_script, parse_pair, window_label, window_title, OpenWindowArgs,
    OpenWindows,
};
use zebar::table::Table;

fn pairs(list: &[(&str, &str)]) -> Vec<(String, String)> {
    list.iter().map(|(k, v)| (k.to_string(), v.to_string())).collect()
}

#[test]
fn decimal_writes_numbers() {
    assert_eq!(decimal(0), "0");
    assert_eq!(decimal(7), "7");
    assert_eq!(decimal(10), "10");
    assert_eq!(decimal(1234567890), "1234567890");
    assert_eq!(decimal(u64::MAX), "18446744073709551615");
}

#[test]
fn labels_titles_and_scripts() {
    assert_eq!(window_label(1, "bar"), "1-bar");
    assert_eq!(window_label(12, "my-widget"), "12-my-widget");
    assert_eq!(window_label(3, ""), "3-");
    assert_eq!(window_title("bar"), "Zebar - bar");
    assert_eq!(open_args_script("{\"windowId\":\"bar\"}"), "window.__ZEBAR_OPEN_ARGS={\"windowId\":\"bar\"}");
}

#[test]
fn a_later_pair_replaces_an_earlier_one() {
    let table = collect_pairs(&pairs(&[("a", "1"), ("b", "2"), ("a", "3")]));
    assert_eq!(table.len(), 2);
    assert_eq!(table.get("a"), Some(&"3".to_string()));
    assert_eq!(table.get("b"), Some(&"2".to_string()));
    assert_eq!(table.get("c"), None);
    assert_eq!(collect_pairs(&pairs(&[])).len(), 0);
}

#[test]
fn open_window_args_without_arguments() {
    let args = OpenWindowArgs::new("bar".to_string(), None, pairs(&[("HOME", "/root")]));
    assert_eq!(args.window_id, "bar");
    assert!(args.args.is_empty());
    assert_eq!(args.env.get("HOME"), Some(&"/root".to_string()));
}

#[test]
fn windows_showing_the_same_widget_get_their_own_labels() {
    let mut windows = OpenWindows::new();
    let first = windows.open(OpenWindowArgs::new("bar".to_string(), Some(pairs(&[("side", "left")])), vec![]));
    let second = windows.open(OpenWindowArgs::new("bar".to_string(), Some(pairs(&[("side", "right")])), vec![]));
    assert_eq!(first, Some("1-bar".to_string()));
    assert_eq!(second, Some("2-bar".to_string()));
    assert_eq!(windows.len(), 2);
    assert_eq!(windows.get("1-bar").unwrap().args.get("side"), Some(&"left".to_string()));
    assert_eq!(windows.get("2-bar").unwrap().args.get("side"), Some(&"right".to_string()));
    assert_eq!(windows.get("2-bar").unwrap().window_id, "bar");
    assert!(windows.get("3-bar").is_none());
    assert!(windows.get("bar").is_none());
}

#[test]
fn table_insert_get_remove() {
    let mut table: Table<u32> = Table::new();
    assert!(table.is_empty());
    assert_eq!(table.insert("x".to_string(), 1), None);
    assert_eq!(table.insert("y".to_string(), 2), None);
    assert_eq!(table.insert("x".to_string(), 3), Some(1));
    assert_eq!(table.len(), 2);
    assert_eq!(table.find("y"), Some(1));
    assert_eq!(table.find("z"), None);
    assert!(table.contains_key("x"));
    assert_eq!(table.key_at(0), "x");
    assert_eq!(*table.value_at(0), 3);
    *table.value_at_mut(1) = 20;
    assert_eq!(table.get("y"), Some(&20));
    assert_eq!(table.remove("x"), Some(3));
    assert_eq!(table.remove("x"), None);
    assert_eq!(table.len(), 1);
    assert_eq!(table.key_at(0), "y");
    assert!(!table.contains_key("x"));
}

#[test]
fn table_keys_are_compared_by_their_text() {
    let mut table: Table<u32> = Table::new();
    table.insert("key".to_string(), 1);
    table.insert("ke".to_string(), 2);
    table.insert("Key".to_string(), 3);
    table.insert("".to_string(), 4);
    assert_eq!(table.len(), 4);
    let k = String::from("ke") + "y";
    assert_eq!(table.get(&k), Some(&1));
    assert_eq!(table.get("ke"), Some(&2));
    assert_eq!(table.get(""), Some(&4));
    assert_eq!(table.get("k"), None);
}

#[test]
fn a_pair_is_split_at_its_first_equals_sign() {
    assert_eq!(parse_pair("side=left"), Some(("side".to_string(), "left".to_string())));
    assert_eq!(parse_pair("a=b=c"), Some(("a".to_string(), "b=c".to_string())));
    assert_eq!(parse_pair("=x"), Some(("".to_string(), "x".to_string())));
    assert_eq!(parse_pair("x="), Some(("x".to_string(), "".to_string())));
    assert_eq!(parse_pair("="), Some(("".to_string(), "".to_string())));
    assert_eq!(parse_pair("größe=weiß"), Some(("größe".to_string(), "weiß".to_string())));
    assert_eq!(parse_pair("side"), None);
    assert_eq!(parse_pair(""), None);
}
