//! Settings: expressions, bindings, schemas, values, commands and paths.

use tessera::config::binding::Binding;
use tessera::config::command::split_command;
use tessera::config::expr::Expr;
use tessera::config::paths::{config_dir, config_path, join_path, scripts_dir};
use tessera::config::fields::{Field, FieldValue};
use tessera::config::schema::{
    check, Apply, Entry, Kind, Pattern, RawDefault, RawItem, Schema, SchemaError, Value,
};
use tessera::config::values::{Change, ConfigValues, FileText, LoadError};

fn eval(text: &str, on: &[&str]) -> bool {
    Expr::parse(text).unwrap().eval(&|key: &str| on.contains(&key))
}

#[test]
fn a_single_key_is_its_own_value() {
    assert!(eval("a.b", &["a.b"]));
    assert!(!eval("a.b", &[]));
}

#[test]
fn not_and_or_behave() {
    assert!(eval("!a", &[]));
    assert!(eval("a && b", &["a", "b"]));
    assert!(!eval("a && b", &["a"]));
    assert!(eval("a || b", &["b"]));
    assert!(!eval("a || b", &[]));
}

#[test]
fn and_binds_tighter_than_or() {
    // a || (b && c), not (a || b) && c
    assert!(eval("a || b && c", &["a"]));
    assert_eq!(Expr::parse("a || b && c").unwrap().to_text(), "(a || (b && c))");
}

#[test]
fn parentheses_and_nested_not() {
    assert!(eval("!(a || b)", &[]));
    assert!(!eval("!(a || b)", &["b"]));
    assert!(eval("!!a", &["a"]));
}

#[test]
fn keys_lists_every_mentioned_option() {
    let expr = Expr::parse("x.a && !(x.b || x.c)").unwrap();
    assert_eq!(expr.keys(), vec!["x.a", "x.b", "x.c"]);
}

#[test]
fn malformed_expressions_explain_themselves() {
    let cases = [
        ("", "empty"),
        ("a &", "doubled"),
        ("a ||", "ends too early"),
        ("(a", "never closed"),
        ("a b", "unexpected `b`"),
        ("a == b", "unexpected character"),
    ];
    for (text, fragment) in cases {
        let err = Expr::parse(text).unwrap_err().to_text();
        assert!(
            err.contains(fragment),
            "`{text}` gave `{err}`, expected it to mention `{fragment}`"
        );
    }
}

#[test]
fn shown_expressions_parse_back() {
    for text in ["a", "!a.b", "a && !(b || c)", "!!(a || b && c)"] {
        let expr = Expr::parse(text).unwrap();
        assert_eq!(Expr::parse(&expr.to_text()).unwrap(), expr);
    }
}

#[test]
fn parses_modifiers_in_any_order_and_case() {
    let binding = Binding::parse("shift+MOD+Return").unwrap();
    assert!(binding.mod_key && binding.shift && !binding.ctrl);
    assert_eq!(binding.key, "Return");
    assert_eq!(binding.to_text(), "Mod+Shift+Return");
    assert!(Binding::parse("Mod+Control+q").unwrap().ctrl);
}

#[test]
fn rejects_malformed_bindings_with_reasons() {
    for (text, fragment) in [
        ("Return", "needs Mod"),
        ("Mod+", "no key"),
        ("Mod++q", "empty part"),
        ("Mod+Hyper+q", "not a modifier"),
        ("Mod+Mod+q", "twice"),
    ] {
        let err = Binding::parse(text).unwrap_err().to_text();
        assert!(err.contains(fragment), "`{text}` → `{err}`");
        assert!(err.contains("Mod+Shift+Return"), "errors show an example");
    }
}

#[test]
fn shown_bindings_parse_back_to_themselves() {
    let binding = Binding::parse("ctrl+mod+Shift+F1").unwrap();
    assert_eq!(binding.to_text(), "Mod+Ctrl+Shift+F1");
    assert_eq!(Binding::parse(&binding.to_text()).unwrap(), binding);
}

#[test]
fn command_lines_split_on_whitespace_and_respect_quotes() {
    assert_eq!(split_command("foot -e htop"), vec!["foot", "-e", "htop"]);
    assert_eq!(
        split_command(r#"sh -c "echo hello world""#),
        vec!["sh", "-c", "echo hello world"]
    );
    assert_eq!(split_command("env VAR='a b' prog"), vec!["env", "VAR=a b", "prog"]);
    assert_eq!(split_command(r#"prog "" x"#), vec!["prog", "", "x"]);
    assert!(split_command("   ").is_empty());
}

#[test]
fn the_config_file_lives_under_the_config_directory() {
    for (xdg, home) in [
        (Some("/xdg"), Some("/home/me")),
        (None, Some("/home/me")),
        (Some("relative"), Some("/home/me")),
        (None, None),
    ] {
        let path = config_path(xdg, home);
        assert!(path.ends_with("tessera/config.toml"), "{path:?}");
    }
}

#[test]
fn the_config_directory_follows_the_environment() {
    assert_eq!(config_dir(Some("/xdg"), Some("/home/me")), "/xdg/tessera");
    assert_eq!(config_dir(None, Some("/home/me")), "/home/me/.config/tessera");
    assert_eq!(
        config_dir(Some("relative"), Some("/home/me")),
        "/home/me/.config/tessera",
        "a relative folder does not count"
    );
    assert_eq!(config_dir(None, None), ".config/tessera");
    assert_eq!(scripts_dir(Some("/xdg"), None), "/xdg/tessera/scripts");
    assert_eq!(join_path("/a/", "b"), "/a/b");
}

fn text_of(value: &toml_edit::Value) -> Option<String> {
    value.as_str().map(str::to_string)
}

fn field_value(value: &toml_edit::Value) -> FieldValue {
    match value {
        toml_edit::Value::Boolean(value) => FieldValue::Bool(*value.value()),
        toml_edit::Value::Integer(value) => FieldValue::Int(*value.value()),
        toml_edit::Value::String(value) => FieldValue::Text(value.value().clone()),
        toml_edit::Value::Array(values) => {
            match values.iter().map(text_of).collect::<Option<Vec<String>>>() {
                Some(texts) => FieldValue::List(texts),
                None => FieldValue::Other,
            }
        }
        _ => FieldValue::Other,
    }
}

/// Reads a schema as written in a file.
fn schema(text: &str) -> Result<Schema, SchemaError> {
    let doc: toml_edit::DocumentMut = text.parse().unwrap();
    let items: Vec<Vec<Field>> = doc["item"]
        .as_array_of_tables()
        .unwrap()
        .iter()
        .map(|table| {
            table
                .iter()
                .map(|(name, item)| Field {
                    name: name.to_string(),
                    value: item.as_value().map(field_value).unwrap_or(FieldValue::Other),
                })
                .collect()
        })
        .collect();
    Schema::parse(&items)
}

fn item(kind: &str, key: &str, prompt: &str, default: RawDefault) -> RawItem {
    RawItem {
        kind: kind.to_string(),
        id: None,
        key: Some(key.to_string()),
        parent: None,
        prompt: prompt.to_string(),
        help: String::new(),
        default: Some(default),
        apply: Some(Apply::Live),
        min: None,
        max: None,
        choices: None,
        pattern: None,
        depends_on: None,
        select: Vec::new(),
    }
}

fn whole(key: &str, default: i64, min: i64, max: i64) -> RawItem {
    RawItem {
        min: Some(min),
        max: Some(max),
        ..item("int", key, "Size", RawDefault::Int(default))
    }
}

#[test]
fn the_builtin_schema_parses_and_every_default_is_valid() {
    let schema = Schema::builtin();
    assert!(!schema.options.is_empty());
    for option in &schema.options {
        assert_eq!(check(&option.kind, &option.default), Ok(()), "default of {}", option.key);
    }
}

#[test]
fn the_builtin_schema_has_the_menus_the_launcher_expects() {
    let schema = Schema::builtin();
    let top: Vec<&str> = schema
        .entries(None)
        .iter()
        .filter_map(|entry| match entry {
            Entry::Menu(index) => Some(schema.menus[*index].id.as_str()),
            Entry::Option(_) => None,
        })
        .collect();
    assert_eq!(top, ["general", "display", "bindings", "layout", "focus", "launcher"]);
    assert_eq!(schema.parent_of("layout.gaps"), Some("layout"));
    assert_eq!(schema.option("layout.gaps").unwrap().default, Value::Int(8));
}

#[test]
fn a_schema_can_be_copied_and_searched() {
    let schema = Schema::builtin();
    assert_eq!(schema.clone(), schema);
    assert_eq!(schema.menu("focus").unwrap().prompt, "Focus");
    assert!(schema.menu("nowhere").is_none());
    assert!(schema.option("nowhere.at_all").is_none());
    assert_eq!(schema.parent_of("nowhere.at_all"), None);
    assert_eq!(schema.entries(Some("display")).len(), 1);
}

#[test]
fn int_ranges_are_enforced_with_a_useful_message() {
    let kind = Kind::Int { min: 0, max: 64 };
    assert_eq!(check(&kind, &Value::Int(64)), Ok(()));
    let err = check(&kind, &Value::Int(999)).unwrap_err();
    assert!(err.contains("0–64"), "{err}");
}

#[test]
fn choices_list_what_is_allowed() {
    let kind = Kind::Choice { choices: vec!["alt".into(), "super".into()] };
    let err = check(&kind, &Value::Text("hyper".into())).unwrap_err();
    assert!(err.contains("alt, super"), "{err}");
}

#[test]
fn values_of_the_wrong_type_are_refused() {
    let binding = Kind::Text { pattern: Some(Pattern::Binding) };
    assert!(check(&Kind::Bool, &Value::Int(1)).unwrap_err().contains("on or off"));
    assert!(check(&Kind::Int { min: 0, max: 1 }, &Value::Bool(true))
        .unwrap_err()
        .contains("whole number"));
    assert!(check(&binding, &Value::Bool(true)).unwrap_err().contains("text"));
    assert!(check(&binding, &Value::Text("q".into())).unwrap_err().contains("Mod"));
    assert_eq!(check(&binding, &Value::Text("Mod+q".into())), Ok(()));
}

#[test]
fn a_schema_with_a_dangling_reference_is_rejected() {
    let text = r#"
        [[item]]
        kind = "bool"
        key = "a.b"
        prompt = "B"
        default = true
        apply = "live"
        depends_on = "a.missing"
    "#;
    let err = schema(text).unwrap_err().to_text();
    assert!(err.contains("a.missing"), "{err}");
}

#[test]
fn select_must_target_a_bool() {
    let text = r#"
        [[item]]
        kind = "bool"
        key = "a.on"
        prompt = "On"
        default = false
        apply = "live"
        select = ["a.size"]

        [[item]]
        kind = "int"
        key = "a.size"
        prompt = "Size"
        default = 1
        min = 0
        max = 9
        apply = "live"
    "#;
    let err = schema(text).unwrap_err().to_text();
    assert!(err.contains("not a bool"), "{err}");
}

#[test]
fn defaults_must_satisfy_their_own_constraints() {
    let text = r#"
        [[item]]
        kind = "int"
        key = "a.size"
        prompt = "Size"
        default = 100
        min = 0
        max = 9
        apply = "live"
    "#;
    let err = schema(text).unwrap_err().to_text();
    assert!(err.contains("0–9"), "{err}");
}

#[test]
fn unknown_fields_are_caught() {
    let text = r#"
        [[item]]
        kind = "bool"
        key = "a.b"
        prompt = "B"
        default = true
        apply = "live"
        defualt = false
    "#;
    assert!(schema(text).is_err());
}

#[test]
fn fields_with_the_wrong_value_are_caught() {
    let item = |line: &str| schema(&format!("[[item]]\n{line}\n")).unwrap_err().to_text();
    for (line, fragment) in [
        ("kind = 3\nprompt = \"B\"", "`kind`"),
        ("kind = \"bool\"\nprompt = \"B\"\nmin = \"one\"", "`min`"),
        ("kind = \"bool\"\nprompt = \"B\"\napply = \"later\"", "`apply`"),
        ("kind = \"bool\"\nprompt = \"B\"\npattern = \"path\"", "`pattern`"),
        ("kind = \"bool\"\nprompt = \"B\"\ndefault = [\"x\"]", "`default`"),
        ("kind = \"bool\"\nprompt = \"B\"\nselect = true", "`select`"),
        ("prompt = \"B\"", "missing field `kind`"),
        ("kind = \"bool\"", "missing field `prompt`"),
    ] {
        let err = item(line);
        assert!(err.starts_with("schema.toml does not parse: "), "{err}");
        assert!(err.contains(fragment), "{err}");
    }
}

#[test]
fn every_flaw_of_a_schema_is_explained() {
    let bool_item = || item("bool", "a.b", "B", RawDefault::Bool(true));
    let cases = vec![
        (vec![RawItem { key: None, ..bool_item() }], "needs a `key`"),
        (vec![RawItem { key: Some("ab".to_string()), ..bool_item() }], "section.name"),
        (vec![bool_item(), bool_item()], "twice"),
        (vec![RawItem { kind: "list".to_string(), ..bool_item() }], "unknown kind"),
        (vec![RawItem { default: None, ..bool_item() }], "needs a `default`"),
        (
            vec![RawItem { default: Some(RawDefault::Int(1)), ..bool_item() }],
            "wrong type",
        ),
        (vec![RawItem { apply: None, ..bool_item() }], "apply"),
        (vec![RawItem { min: None, ..whole("a.n", 1, 0, 9) }], "`min` and `max`"),
        (vec![whole("a.n", 1, 9, 0)], "above max"),
        (
            vec![item("choice", "a.c", "C", RawDefault::Text("x".to_string()))],
            "needs `choices`",
        ),
        (
            vec![RawItem { kind: "menu".to_string(), ..bool_item() }],
            "needs an `id`",
        ),
        (
            vec![RawItem { parent: Some("lost".to_string()), ..bool_item() }],
            "no menu has that id",
        ),
        (
            vec![RawItem { select: vec!["a.n".to_string()], ..whole("a.n", 1, 0, 9) }],
            "only bool options",
        ),
        (
            vec![RawItem { depends_on: Some("a &".to_string()), ..bool_item() }],
            "doubled",
        ),
    ];
    for (items, fragment) in cases {
        let err = Schema::build(&items).unwrap_err().to_text();
        assert!(err.contains(fragment), "`{err}` should mention `{fragment}`");
    }
}

#[test]
fn an_empty_config_uses_every_default() {
    let values = ConfigValues::parse("").unwrap();
    assert_eq!(values.integer("layout.gaps"), 8);
    assert_eq!(values.text("general.terminal"), "foot");
    assert!(!values.bool("layout.snap_to_cells"));
    assert!(values.bool("focus.new_windows"));
}

#[test]
fn a_missing_file_is_not_an_error() {
    let values = ConfigValues::load(
        Schema::builtin(),
        "/nonexistent/tessera/config.toml",
        FileText::Missing,
    )
    .unwrap();
    assert_eq!(values.integer("layout.gaps"), 8);
}

#[test]
fn a_file_that_cannot_be_read_or_parsed_is_an_error() {
    let err = ConfigValues::load(
        Schema::builtin(),
        "/etc/x.toml",
        FileText::Failed("permission denied".to_string()),
    )
    .err()
    .unwrap();
    assert_eq!(err.to_text(), "/etc/x.toml: permission denied");
    let err =
        ConfigValues::load(Schema::builtin(), "/etc/x.toml", FileText::Text("[[".to_string()))
            .err()
            .unwrap();
    assert!(matches!(err, LoadError::Syntax { .. }));
    assert!(err.to_text().starts_with("/etc/x.toml is not valid TOML: "), "{}", err.to_text());
    let err = ConfigValues::load(
        Schema::builtin(),
        "/etc/x.toml",
        FileText::Text("[layout]\ngaps = 65\n".to_string()),
    )
    .err()
    .unwrap();
    assert!(matches!(err, LoadError::Invalid(_)));
}

#[test]
fn file_values_override_defaults() {
    let values = ConfigValues::parse("[layout]\ngaps = 24\n").unwrap();
    assert_eq!(values.integer("layout.gaps"), 24);
}

#[test]
fn out_of_range_values_are_rejected_naming_the_range() {
    let err = ConfigValues::parse("[layout]\ngaps = 999\n").err().unwrap().to_text();
    assert!(err.contains("layout.gaps"), "{err}");
    assert!(err.contains("999"), "{err}");
    assert!(err.contains("0–64"), "{err}");

    let mut values = ConfigValues::default();
    let err = values.set("layout.gaps", Value::Int(999)).unwrap_err();
    assert!(err.reason.contains("0–64"), "{}", err.to_text());
}

#[test]
fn wrong_types_are_rejected() {
    let err = ConfigValues::parse("[layout]\ngaps = \"wide\"\n").err().unwrap().to_text();
    assert!(err.contains("whole number"), "{err}");
}

#[test]
fn unknown_keys_are_kept_rather_than_rejected() {
    let values = ConfigValues::parse("[future]\nshiny = true\n").unwrap();
    assert!(values.to_toml().contains("shiny = true"));
}

#[test]
fn saving_keeps_comments_and_unknown_keys() {
    let text = "# my settings\n[layout]\n# roomy\ngaps = 12\n\n[future]\nshiny = true\n";
    let mut values = ConfigValues::parse(text).unwrap();
    values.set("layout.gaps", Value::Int(24)).unwrap();
    let saved = values.to_toml();
    assert!(saved.contains("# my settings"), "{saved}");
    assert!(saved.contains("# roomy"), "{saved}");
    assert!(saved.contains("gaps = 24"), "{saved}");
    assert!(saved.contains("shiny = true"), "{saved}");
}

#[test]
fn changing_a_value_keeps_the_comment_behind_it_and_the_order() {
    let text = "novel = 4 # not ours\n\n[layout] # spacing\nsmart_gaps = true\ngaps  =  12   # roomy\n# odd\nodd = [1, 2] # list\n";
    let mut values = ConfigValues::parse(text).unwrap();
    values.set("layout.gaps", Value::Int(24)).unwrap();
    assert_eq!(
        values.to_toml(),
        "novel = 4 # not ours\n\n[layout] # spacing\nsmart_gaps = true\ngaps  =  24   # roomy\n# odd\nodd = [1, 2] # list\n"
    );
    values.set("layout.smart_gaps", Value::Bool(false)).unwrap();
    assert_eq!(
        values.to_toml(),
        "novel = 4 # not ours\n\n[layout] # spacing\ngaps  =  24   # roomy\n# odd\nodd = [1, 2] # list\n"
    );
    values.set("layout.smart_gaps", Value::Bool(true)).unwrap();
    assert_eq!(
        values.to_toml(),
        "novel = 4 # not ours\n\n[layout] # spacing\ngaps  =  24   # roomy\n# odd\nodd = [1, 2] # list\nsmart_gaps = true\n"
    );
}

#[test]
fn a_new_section_comes_after_the_others() {
    let mut values = ConfigValues::parse("[layout]\ngaps = 12\n# the end\n").unwrap();
    values.set("general.terminal", Value::Text("alacritty".into())).unwrap();
    assert_eq!(
        values.to_toml(),
        "[layout]\ngaps = 12\n\n[general]\nterminal = \"alacritty\"\n# the end\n"
    );
}

#[test]
fn comments_in_files_with_carriage_returns_stay() {
    let text = "# mine\r\n[layout]\r\n# roomy\r\ngaps = 12 # wide\r\n";
    let mut values = ConfigValues::parse(text).unwrap();
    values.set("layout.gaps", Value::Int(24)).unwrap();
    assert_eq!(values.to_toml(), "# mine\n[layout]\n# roomy\ngaps = 24 # wide\n");
}

#[test]
fn setting_a_default_removes_the_line() {
    let mut values = ConfigValues::parse("[layout]\ngaps = 12\n").unwrap();
    values.set("layout.gaps", Value::Int(8)).unwrap();
    assert!(!values.to_toml().contains("gaps"), "{}", values.to_toml());
    assert_eq!(values.integer("layout.gaps"), 8);
}

#[test]
fn setting_the_last_default_drops_the_empty_section() {
    let mut values = ConfigValues::parse("[layout]\ngaps = 12\n").unwrap();
    values.set("layout.gaps", Value::Int(8)).unwrap();
    assert!(!values.to_toml().contains("[layout]"), "{}", values.to_toml());
}

#[test]
fn an_empty_section_with_a_comment_is_kept() {
    let mut values = ConfigValues::parse("# spacing\n[layout]\ngaps = 12\n").unwrap();
    values.set("layout.gaps", Value::Int(8)).unwrap();
    assert!(values.to_toml().contains("# spacing"), "{}", values.to_toml());
}

#[test]
fn saved_settings_load_back() {
    let mut values = ConfigValues::default();
    values.set("general.terminal", Value::Text("alacritty".into())).unwrap();
    values.set("layout.gaps", Value::Int(3)).unwrap();
    values.set("layout.smart_gaps", Value::Bool(true)).unwrap();
    let loaded = ConfigValues::parse(&values.to_toml()).unwrap();
    assert_eq!(loaded.text("general.terminal"), "alacritty");
    assert_eq!(loaded.integer("layout.gaps"), 3);
    assert!(loaded.bool("layout.smart_gaps"));
    assert!(loaded.changes_from(&values).is_empty());
}

#[test]
fn depends_on_hides_options_until_satisfied() {
    let mut values = ConfigValues::default();
    assert!(!values.visible("focus.follows_mouse_skips_launcher"));
    values.set("focus.follows_mouse", Value::Bool(true)).unwrap();
    assert!(values.visible("focus.follows_mouse_skips_launcher"));
    assert!(
        values.visible("layout.gaps"),
        "options without depends_on are always visible"
    );
    assert!(values.menu_visible("layout"));
}

#[test]
fn changes_report_how_each_takes_effect() {
    let old = ConfigValues::default();
    let mut new = old.clone();
    new.set("layout.gaps", Value::Int(20)).unwrap();
    new.set("launcher.font_size", Value::Int(20)).unwrap();
    let changes = new.changes_from(&old);
    assert_eq!(
        changes,
        vec![
            Change { key: "layout.gaps".into(), apply: Apply::Live },
            Change { key: "launcher.font_size".into(), apply: Apply::Restart },
        ]
    );
}

#[test]
fn select_forces_an_option_on_while_its_selector_is_on() {
    // The built-in schema has no `select`, so exercise the mechanism on its own.
    let schema = schema(
        r#"
            [[item]]
            kind = "bool"
            key = "net.vpn"
            prompt = "VPN"
            default = false
            apply = "live"
            select = ["net.firewall"]

            [[item]]
            kind = "bool"
            key = "net.firewall"
            prompt = "Firewall"
            default = false
            apply = "live"
            "#,
    )
    .unwrap();

    let mut values = ConfigValues::parse_with(schema, "").unwrap();
    assert!(!values.bool("net.firewall"));
    assert_eq!(values.forced_by("net.firewall"), None);

    values.set("net.vpn", Value::Bool(true)).unwrap();
    assert!(values.bool("net.firewall"), "selected on");
    assert_eq!(values.forced_by("net.firewall"), Some("net.vpn"));
    assert_eq!(
        values.stored("net.firewall"),
        Some(Value::Bool(false)),
        "the stored value is untouched, so it comes back when the selector is off"
    );

    values.set("net.vpn", Value::Bool(false)).unwrap();
    assert!(!values.bool("net.firewall"));
}

#[test]
fn what_a_selected_option_selects_is_on_too() {
    let item = |key: &str, select: &str| {
        format!(
            "[[item]]\nkind = \"bool\"\nkey = \"{key}\"\nprompt = \"P\"\ndefault = false\napply = \
\"live\"\nselect = [{select}]\n"
        )
    };
    let chain = item("a.x", "\"a.y\"") + &item("a.y", "\"a.z\"") + &item("a.z", "");
    let mut values = ConfigValues::parse_with(schema(&chain).unwrap(), "").unwrap();
    assert_eq!(values.get("a.z"), Some(Value::Bool(false)));
    values.set("a.x", Value::Bool(true)).unwrap();
    assert_eq!(values.get("a.y"), Some(Value::Bool(true)));
    assert_eq!(values.get("a.z"), Some(Value::Bool(true)));
    assert_eq!(values.forced_by("a.z"), Some("a.y"));
    assert_eq!(values.stored("a.z"), Some(Value::Bool(false)));
    values.set("a.x", Value::Bool(false)).unwrap();
    assert!(!values.bool("a.z"));

    let ring = item("a.x", "\"a.y\"") + &item("a.y", "\"a.x\"");
    let mut values = ConfigValues::parse_with(schema(&ring).unwrap(), "").unwrap();
    assert!(!values.bool("a.x") && !values.bool("a.y"), "nothing turned them on");
    values.set("a.y", Value::Bool(true)).unwrap();
    assert!(values.bool("a.x") && values.bool("a.y"));
}

#[test]
fn text_input_is_parsed_per_kind() {
    let mut values = ConfigValues::default();
    values.set_from_text("layout.gaps", " 16 ").unwrap();
    assert_eq!(values.integer("layout.gaps"), 16);
    assert!(values.set_from_text("layout.gaps", "lots").is_err());
    let err = values.set_from_text("bindings.quit", "Hyper+q").unwrap_err();
    assert!(err.reason.contains("not a modifier"), "{}", err.to_text());
}

#[test]
fn unknown_options_are_refused_and_read_as_nothing() {
    let mut values = ConfigValues::default();
    assert!(values.set("no.such", Value::Bool(true)).is_err());
    assert_eq!(values.get("no.such"), None);
    assert_eq!(values.text("no.such"), "");
    assert_eq!(values.integer("no.such"), 0);
    assert!(!values.bool("no.such"));
    assert_eq!(values.schema().options.len(), 21);
}

#[test]
fn values_in_an_inline_table_are_replaced_in_place() {
    let mut values = ConfigValues::parse("layout = { gaps = 12, extra = 1 }\n").unwrap();
    assert_eq!(values.integer("layout.gaps"), 12);
    values.set("layout.gaps", Value::Int(20)).unwrap();
    assert_eq!(values.integer("layout.gaps"), 20);
    values.set("layout.gaps", Value::Int(8)).unwrap();
    assert_eq!(values.integer("layout.gaps"), 8);
    assert!(values.to_toml().contains("extra"), "{}", values.to_toml());
}

#[test]
fn the_menus_hold_every_option_and_menu_once() {
    let schema = Schema::builtin();
    let mut menus: Vec<Option<&str>> = vec![None];
    menus.extend(schema.menus.iter().map(|menu| Some(menu.id.as_str())));
    let mut options = 0;
    let mut submenus = 0;
    for menu in menus {
        let mut last_option = None;
        let mut last_menu = None;
        for entry in schema.entries(menu) {
            match entry {
                Entry::Option(i) => {
                    assert!(last_option.is_none_or(|last| last < i), "file order");
                    last_option = Some(i);
                    options += 1;
                    assert_eq!(schema.parent_of(&schema.options[i].key), menu);
                }
                Entry::Menu(i) => {
                    assert!(last_menu.is_none_or(|last| last < i), "file order");
                    last_menu = Some(i);
                    submenus += 1;
                }
            }
        }
    }
    assert_eq!((options, submenus), (schema.options.len(), schema.menus.len()));
    assert!(schema.entries(Some("no such menu")).is_empty());
    assert_eq!(schema.parent_of("no.such"), None);
}
