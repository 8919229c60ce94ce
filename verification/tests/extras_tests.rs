use vodka::config::{
    create_default_config, get, get_as_str, get_or, is_gettable, parse, parse_u32, split_path,
    ConfigValue, FromValue, Value,
};
use vodka::crypto::{get_random_password, hash_sha256, rearrange};
use vodka::display::{display, display_all, display_search, table_title};
use vodka::store::{add_entry, get_all_rows, Cellar};
use vodka::transport::{check_import, export, import};
use vodka::{Entry, ErrorKind};

fn text(s: &str) -> String {
    String::from(s)
}

fn key() -> Vec<u8> {
    hash_sha256(b"correct-key")
}

fn leaf(rendered: &str) -> ConfigValue {
    ConfigValue { text: text(rendered), entries: None }
}

fn table(rendered: &str, entries: Vec<(&str, ConfigValue)>) -> ConfigValue {
    ConfigValue {
        text: text(rendered),
        entries: Some(entries.into_iter().map(|(k, v)| (text(k), v)).collect()),
    }
}

fn sample_config() -> ConfigValue {
    table(
        "whole",
        vec![
            ("default-cmd", leaf("\"help\"")),
            ("hash-memory", leaf("19456")),
            (
                "requires-key",
                table(
                    "{ search = true, config = false }",
                    vec![("search", leaf("true")), ("config", leaf("false"))],
                ),
            ),
            ("", leaf("empty key")),
            (
                "a",
                table("{ b = { c = 1 } }", vec![("b", table("{ c = 1 }", vec![("c", leaf("1"))]))]),
            ),
        ],
    )
}

fn filled_cellar() -> Cellar {
    let mut cellar = Cellar::new();
    for (name, login, password) in [("github", "", "first"), ("github", "alice", "second"), ("mail", "bob", "third")] {
        let entry = Entry::new(&cellar, text(name), text(login), text(password), text("note"), &key());
        vodka::add_entry(&mut cellar, entry).unwrap();
    }
    cellar
}

#[test]
fn generated_password_has_every_class() {
    for _ in 0..50 {
        let password = get_random_password();
        assert_eq!(password.chars().count(), 24);
        assert!(password.chars().any(|c| c.is_ascii_uppercase()));
        assert!(password.chars().any(|c| c.is_ascii_lowercase()));
        assert!(password.chars().any(|c| c.is_ascii_digit()));
        assert!(password.chars().any(|c| "!@#$%^&*()-_+=[]{}|;:,.<>?".contains(c)));
        assert!(password
            .chars()
            .all(|c| c.is_ascii_alphanumeric() || "!@#$%^&*()-_+=[]{}|;:,.<>?".contains(c)));
    }
}

#[test]
fn generated_passwords_differ() {
    assert_ne!(get_random_password(), get_random_password());
}

#[test]
fn generated_password_is_not_in_class_order() {
    // Before shuffling the first four characters are one of each class in a fixed
    // order; over many passwords that pattern must not hold every time.
    let in_order = |p: &String| {
        let c: Vec<char> = p.chars().collect();
        c[0].is_ascii_uppercase() && c[1].is_ascii_lowercase() && c[2].is_ascii_digit()
            && !c[3].is_ascii_alphanumeric()
    };
    assert!((0..40).any(|_| !in_order(&get_random_password())));
}

#[test]
fn rearrange_reads_in_the_given_order() {
    let chars = vec!['a', 'b', 'c', 'd'];
    assert_eq!(rearrange(&chars, &vec![3, 0, 2, 1]), vec!['d', 'a', 'c', 'b']);
    assert_eq!(rearrange(&chars, &vec![1, 1]), vec!['b', 'b']);
    assert_eq!(rearrange(&chars, &Vec::new()), Vec::<char>::new());
}

#[test]
fn table_row_masks_the_password() {
    let cellar = filled_cellar();
    let rows = get_all_rows(&cellar);
    let row = rows[1].as_table_row();
    assert_eq!(row.id, 2);
    assert_eq!(row.name, "github");
    assert_eq!(row.login, "alice");
    assert_eq!(row.password, "********");
    assert_eq!(row.comment, "note");
}

#[test]
fn table_title_names_the_columns() {
    assert_eq!(table_title(), vec!["Name", "Login", "Password", "Comment"]);
}

#[test]
fn display_keeps_the_order() {
    let cellar = filled_cellar();
    let table = display(get_all_rows(&cellar));
    assert_eq!(table.iter().map(|r| r.id).collect::<Vec<i32>>(), vec![1, 2, 3]);
    assert!(table.iter().all(|r| r.password == "********"));
    assert!(display(Vec::new()).is_empty());
}

#[test]
fn display_all_and_search() {
    let cellar = filled_cellar();
    assert_eq!(display_all(&cellar).len(), 3);
    let found = display_search(&cellar, text("github"), text(""));
    assert_eq!(found.iter().map(|r| r.id).collect::<Vec<i32>>(), vec![1, 2]);
    let found = display_search(&cellar, text(""), text("bob"));
    assert_eq!(found.iter().map(|r| r.name.clone()).collect::<Vec<String>>(), vec![text("mail")]);
    assert!(display_search(&cellar, text("nothing"), text("")).is_empty());
}

#[test]
fn export_gives_the_passwords_in_the_clear() {
    let cellar = filled_cellar();
    let entries = export(&cellar, "out.csv", false, &key(), false).unwrap();
    let passwords: Vec<&str> = entries.iter().map(|e| e.password.as_str()).collect();
    assert_eq!(passwords, vec!["first", "second", "third"]);
    assert_eq!(entries[1].id, 2);
    assert_eq!(entries[1].name, "github");
    assert_eq!(entries[1].login, "alice");
    assert_eq!(entries[1].comment, "note");
}

#[test]
fn export_refuses_to_overwrite_unasked() {
    let cellar = filled_cellar();
    match export(&cellar, "out.csv", true, &key(), false) {
        Err(vodka::Error::ExportFileExists(path)) => assert_eq!(path, "out.csv"),
        other => panic!("expected a refusal, got {:?}", other.map(|e| e.len())),
    }
    assert_eq!(export(&cellar, "out.csv", true, &key(), true).unwrap().len(), 3);
}

#[test]
fn export_fails_on_an_unreadable_password() {
    let mut cellar = filled_cellar();
    add_entry(&mut cellar, text("bad"), text(""), &[1, 2, 3], text("")).unwrap();
    let error = export(&cellar, "out.csv", false, &key(), false).unwrap_err();
    assert_eq!(error.kind(), ErrorKind::DecodingError);
}

#[test]
fn import_replaces_the_content() {
    let mut cellar = filled_cellar();
    let records = vec![
        vec![text("svc"), text("carol"), text("pw1"), text("c1")],
        vec![text("other"), text(""), text("pw2")],
        vec![],
        vec![text("long"), text("l"), text("pw4"), text("c4"), text("ignored")],
    ];
    import(&mut cellar, &records, "cellar.sqlite", true, &key(), true).unwrap();
    let rows = get_all_rows(&cellar);
    assert_eq!(rows.iter().map(|r| r.id).collect::<Vec<i32>>(), vec![1, 2, 3, 4]);
    assert_eq!(rows[0].name, "svc");
    assert_eq!(rows[0].login, "carol");
    assert_eq!(rows[0].comment, "c1");
    assert_eq!(rows[0].get_password(&key()).unwrap(), "pw1");
    assert_eq!(rows[1].comment, "");
    assert_eq!(rows[1].get_password(&key()).unwrap(), "pw2");
    assert_eq!(rows[2].name, "");
    assert_eq!(rows[2].get_password(&key()).unwrap(), "");
    assert_eq!(rows[3].comment, "c4");
}

#[test]
fn import_refuses_to_overwrite_unasked() {
    let mut cellar = filled_cellar();
    let records = vec![vec![text("svc"), text(""), text("pw"), text("")]];
    match import(&mut cellar, &records, "cellar.sqlite", true, &key(), false) {
        Err(vodka::Error::ImportFileExists(path)) => assert_eq!(path, "cellar.sqlite"),
        other => panic!("expected a refusal, got {:?}", other),
    }
    assert_eq!(get_all_rows(&cellar).len(), 3);
    import(&mut cellar, &records, "cellar.sqlite", false, &key(), false).unwrap();
    assert_eq!(get_all_rows(&cellar).len(), 1);
}

#[test]
fn an_import_is_refused_before_anything_is_read() {
    match check_import("cellar.sqlite", true, false) {
        Err(vodka::Error::ImportFileExists(path)) => assert_eq!(path, "cellar.sqlite"),
        other => panic!("expected a refusal, got {:?}", other),
    }
    assert!(check_import("cellar.sqlite", true, true).is_ok());
    assert!(check_import("cellar.sqlite", false, false).is_ok());
    assert!(check_import("cellar.sqlite", false, true).is_ok());
}

#[test]
fn import_of_nothing_empties_the_cellar() {
    let mut cellar = filled_cellar();
    import(&mut cellar, &Vec::new(), "cellar.sqlite", true, &key(), true).unwrap();
    assert!(get_all_rows(&cellar).is_empty());
    assert_eq!(vodka::store::get_next_id(&cellar), 1);
}

#[test]
fn default_config_text() {
    let config = create_default_config();
    assert!(config.starts_with("default-cmd = \"help\"\nhash-memory = 19456\n"));
    assert!(config.ends_with("list = true\nconfig = false"));
    assert_eq!(config.lines().count(), 11);
    assert_eq!(config.lines().nth(5), Some(""));
    assert_eq!(config.lines().nth(6), Some("[requires-key]"));
}

#[test]
fn paths_split_like_str_split() {
    for path in ["", ".", "a", "a.b", "a..b", ".a", "a.", "requires-key.search", "ä.ö.ü", "..."] {
        let expected: Vec<String> = path.split('.').map(String::from).collect();
        assert_eq!(split_path(path), expected);
    }
}

#[test]
fn lookup_follows_the_path() {
    let config = sample_config();
    assert_eq!(get_as_str(&config, "default-cmd"), Some(text("\"help\"")));
    assert_eq!(get_as_str(&config, "hash-memory"), Some(text("19456")));
    assert_eq!(get_as_str(&config, "requires-key.search"), Some(text("true")));
    assert_eq!(get_as_str(&config, "requires-key.config"), Some(text("false")));
    assert_eq!(get_as_str(&config, "a.b.c"), Some(text("1")));
    assert_eq!(get_as_str(&config, "a.b"), Some(text("{ c = 1 }")));
    assert_eq!(get_as_str(&config, "requires-key"), Some(text("{ search = true, config = false }")));
    assert_eq!(get_as_str(&config, ""), Some(text("empty key")));
}

#[test]
fn lookup_of_what_is_not_there() {
    let config = sample_config();
    assert_eq!(get_as_str(&config, "missing"), None);
    assert_eq!(get_as_str(&config, "requires-key.missing"), None);
    assert_eq!(get_as_str(&config, "default-cmd.deeper"), None);
    assert_eq!(get_as_str(&config, "a.b.c.d"), None);
    assert_eq!(get_as_str(&config, "a..c"), None);
    assert_eq!(get_as_str(&leaf("x"), "anything"), None);
}

#[test]
fn lookup_takes_the_first_of_equal_keys() {
    let config = table("t", vec![("k", leaf("1")), ("k", leaf("2"))]);
    assert_eq!(get_as_str(&config, "k"), Some(text("1")));
}

#[test]
fn numbers_parse_like_std() {
    for word in [
        "0", "7", "007", "+5", "+", "", "-5", "-0", "4294967295", "4294967296", "42949672950",
        "99999999999999999999999999", "12a", "a12", " 12", "12 ", "1_000", "+-1", "++1", "１２",
        "00000000000000000000000000001", "+4294967295", "+4294967296",
    ] {
        assert_eq!(parse_u32(word), word.parse::<u32>().ok(), "for {:?}", word);
    }
}

#[test]
fn parse_tells_numbers_flags_and_texts_apart() {
    assert!(matches!(parse("19456"), Value::Integer(19456)));
    assert!(matches!(parse("4294967295"), Value::Integer(4294967295)));
    assert!(matches!(parse("true"), Value::Boolean(true)));
    assert!(matches!(parse("false"), Value::Boolean(false)));
    for word in ["help", "\"help\"", "True", "-5", "4294967296", "", "truth", "fals"] {
        match parse(word) {
            Value::String(kept) => assert_eq!(kept, word),
            other => panic!("expected a text for {:?}, got {:?}", word, other),
        }
    }
}

#[test]
fn values_read_as_their_type() {
    assert_eq!(String::from_value(&Value::String(text("x"))), "x");
    assert_eq!(i32::from_value(&Value::Integer(-3)), -3);
    assert_eq!(i32::from_value(&Value::Integer(2147483647)), 2147483647);
    assert!(bool::from_value(&Value::Boolean(true)));
    assert!(!bool::from_value(&Value::Boolean(false)));
    assert!(String::is_readable(&Value::String(text("x"))));
    assert!(!String::is_readable(&Value::Integer(1)));
    assert!(i32::is_readable(&Value::Integer(-2147483648)));
    assert!(!i32::is_readable(&Value::Integer(2147483648)));
    assert!(!i32::is_readable(&Value::Boolean(true)));
    assert!(bool::is_readable(&Value::Boolean(false)));
    assert!(!bool::is_readable(&Value::String(text("true"))));
}

#[test]
fn typed_lookup() {
    let config = sample_config();
    assert_eq!(get::<i32>(&config, "hash-memory"), Some(19456));
    assert_eq!(get::<bool>(&config, "requires-key.search"), Some(true));
    assert_eq!(get::<bool>(&config, "requires-key.config"), Some(false));
    assert_eq!(get::<String>(&config, "default-cmd"), Some(text("\"help\"")));
    assert_eq!(get::<i32>(&config, "missing"), None);
    assert_eq!(get_or(&config, "missing", 5), 5);
    assert_eq!(get_or(&config, "hash-memory", 5), 19456);
    assert_eq!(get_or(&config, "requires-key.list", true), true);
    assert_eq!(get_or(&config, "default-cmd", text("list")), "\"help\"");
}

#[test]
fn typed_lookup_can_be_tested_first() {
    let config = sample_config();
    assert!(is_gettable::<i32>(&config, "hash-memory"));
    assert!(!is_gettable::<bool>(&config, "hash-memory"));
    assert!(!is_gettable::<String>(&config, "hash-memory"));
    assert!(is_gettable::<String>(&config, "default-cmd"));
    assert!(is_gettable::<bool>(&config, "missing"));
    let large = table("t", vec![("n", leaf("4000000000"))]);
    assert!(!is_gettable::<i32>(&large, "n"));
}
