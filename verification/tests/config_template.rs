use terb::command::{parse_command, Command};
use terb::config::{config_document, config_entry, config_keys, Config, ConfigEntry, ConfigError, ConfigValue};
use terb::posts::PostEntry;
use terb::template::{list_page, parse_template, post_page, render_page, TemplateError};

const CONFIG: &str = "blogtitle = \"My Blog\"\ndescription = \"Notes\"\nauthor = \"Me\"\nlist_path = \"out/index.html\"\n";

#[test]
fn config_reads_all_keys() {
    let c = Config::from_toml(CONFIG).ok().unwrap();
    assert_eq!(c.blogtitle, "My Blog");
    assert_eq!(c.description, "Notes");
    assert_eq!(c.author, "Me");
    assert_eq!(c.list_path, "out/index.html");
}

#[test]
fn config_errors_name_the_first_missing_key() {
    let text = "blogtitle = \"T\"\ndescription = \"D\"\nlist_path = \"x\"\n";
    match Config::from_toml(text) {
        Err(ConfigError::MissingString(k)) => assert_eq!(k, "author"),
        Ok(_) => panic!("expected an error"),
    }
    let text = "blogtitle = 3\n";
    match Config::from_toml(text) {
        Err(ConfigError::MissingString(k)) => assert_eq!(k, "blogtitle"),
        Ok(_) => panic!("expected an error"),
    }
    match Config::from_toml("this is = = not toml") {
        Err(ConfigError::MissingString(k)) => assert_eq!(k, "blogtitle"),
        Ok(_) => panic!("expected an error"),
    }
}

#[test]
fn keys_in_order() {
    assert_eq!(config_keys(), vec!["blogtitle", "description", "author", "list_path"]);
}

#[test]
fn entries_trim_answers() {
    let e = config_entry("author", "  Me \n");
    assert_eq!(e.key, "author");
    match e.value {
        ConfigValue::Text(s) => assert_eq!(s, "Me"),
        ConfigValue::List(_) => panic!("expected text"),
    }
    let e = config_entry("language", " rust, go ,c \n");
    match e.value {
        ConfigValue::List(v) => assert_eq!(v, vec!["rust", "go", "c"]),
        ConfigValue::Text(_) => panic!("expected a list"),
    }
    let e = config_entry("language", "");
    match e.value {
        ConfigValue::List(v) => assert_eq!(v, vec![""]),
        ConfigValue::Text(_) => panic!("expected a list"),
    }
}

#[test]
fn written_config_reads_back() {
    let keys = config_keys();
    let answers = ["My Blog\n", " Notes ", "Me", "out/index.html\n"];
    let entries: Vec<ConfigEntry> = keys.iter().zip(answers.iter()).map(|(k, a)| config_entry(k, a)).collect();
    let doc = config_document(&entries).unwrap();
    assert!(doc.contains("blogtitle = \"My Blog\""));
    let c = Config::from_toml(&doc).ok().unwrap();
    assert_eq!(c.blogtitle, "My Blog");
    assert_eq!(c.description, "Notes");
    assert_eq!(c.author, "Me");
    assert_eq!(c.list_path, "out/index.html");
}

#[test]
fn post_page_renders() {
    let t = parse_template("{{ title }}|{{ date }}|{{ content }}").ok().unwrap();
    let data = post_page("# Hello\n\n## 2024-01-01\n");
    let out = render_page(&t, &data).ok().unwrap();
    assert_eq!(out, "Hello|2024-01-01|<h1>Hello</h1>\n<h2>2024-01-01</h2>\n");
}

#[test]
fn list_page_renders_newest_first() {
    let config = Config::from_toml(CONFIG).ok().unwrap();
    let entries = vec![
        PostEntry { date: "2023".to_string(), title: "Old".to_string(), path: "old".to_string() },
        PostEntry { date: "2024".to_string(), title: "New".to_string(), path: "new".to_string() },
    ];
    let data = list_page(&config, entries);
    let t = parse_template("{{ blogtitle }}/{{ author }}/{{ description }}:{% for e in list %}[{{ e.date }} {{ e.title }} {{ e.path }}]{% endfor %}").ok().unwrap();
    assert_eq!(render_page(&t, &data).ok().unwrap(), "My Blog/Me/Notes:[2024 New new][2023 Old old]");
}

#[test]
fn bad_template_is_a_parse_error() {
    assert!(matches!(parse_template("{% if %}"), Err(TemplateError::Parse(_))));
    assert!(matches!(parse_template("{{ unclosed"), Err(TemplateError::Parse(_))));
}

#[test]
fn unknown_variable_is_a_render_error() {
    let t = parse_template("{{ nothing }}").ok().unwrap();
    let data = post_page("x");
    assert!(matches!(render_page(&t, &data), Err(TemplateError::Render(_))));
}

#[test]
fn commands() {
    let args = |v: &[&str]| v.iter().map(|s| s.to_string()).collect::<Vec<String>>();
    assert!(matches!(parse_command(&args(&["terb"])), Command::Usage));
    assert!(matches!(parse_command(&args(&["terb", "-G"])), Command::Generate));
    assert!(matches!(parse_command(&args(&["terb", "-S", "x"])), Command::Serve));
    assert!(matches!(parse_command(&args(&["terb", "-I"])), Command::Init));
    assert!(matches!(parse_command(&args(&["terb", "-g"])), Command::Invalid));
}

#[test]
fn rendered_text_is_kept_as_it_is() {
    let r = terb::template::page_result(Ok("<p>page</p>".to_string()));
    assert_eq!(r.ok().unwrap(), "<p>page</p>");
}
