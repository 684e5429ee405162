use alfred_github::alfred::models::{AuthorIcon, Icon, Item, Items, Modifier, Modifiers, VarValue};

fn bare_item(title: &str, arg: &str) -> Item {
    Item {
        title: title.to_string(),
        subtitle: None,
        uid: None,
        arg: arg.to_string(),
        html_url: None,
        matches: None,
        icon: None,
        variables: None,
        mods: None,
    }
}

#[test]
fn test_owner() {
    let mut item = bare_item("foo", "foo");
    item.variables = Some(vec![
        ("owner".to_string(), VarValue::Str("foo".to_string())),
        ("name".to_string(), VarValue::Str("bar".to_string())),
    ]);
    assert_eq!(item.owner(), Some("foo".into()));
}

#[test]
fn test_modifiers() {
    let mut item = bare_item("foo", "foo");
    item.mods = Some(Modifiers {
        alt: Some(Modifier {
            arg: None,
            subtitle: Some("foo".into()),
            variables: None,
        }),
        cmd: None,
        ctrl: None,
        fun: None,
        shift: None,
    });
    assert_eq!(
        item.to_json(),
        r#"{"title":"foo","arg":"foo","mods":{"alt":{"subtitle":"foo"}}}"#
    );
}

#[test]
fn owner_absent_or_not_a_string() {
    let item = bare_item("t", "a");
    assert_eq!(item.owner(), None);
    let mut item = bare_item("t", "a");
    item.variables = Some(vec![("owner".to_string(), VarValue::Null)]);
    assert_eq!(item.owner(), None);
}

#[test]
fn schema_omits_unset_fields() {
    let item = bare_item("foo", "foo");
    assert_eq!(item.to_json(), r#"{"title":"foo","arg":"foo"}"#);
}

#[test]
fn schema_renders_every_field_in_order() {
    let item = Item {
        title: "t".to_string(),
        subtitle: Some("s".to_string()),
        uid: Some("u".to_string()),
        arg: "a".to_string(),
        html_url: Some("h".to_string()),
        matches: Some("m".to_string()),
        icon: Some(Icon { path: "/i.png".to_string() }),
        variables: Some(vec![("k".to_string(), VarValue::Str("v".to_string()))]),
        mods: Some(Modifiers {
            alt: None,
            cmd: None,
            ctrl: None,
            fun: Some(Modifier {
                arg: Some("fa".to_string()),
                subtitle: None,
                variables: Some(vec![("n".to_string(), VarValue::Null)]),
            }),
            shift: None,
        }),
    };
    assert_eq!(
        item.to_json(),
        r#"{"title":"t","subtitle":"s","uid":"u","arg":"a","html_url":"h","match":"m","icon":{"path":"/i.png"},"variables":{"k":"v"},"mods":{"fn":{"arg":"fa","variables":{"n":null}}}}"#
    );
}

#[test]
fn json_escapes_like_the_schema_asks() {
    let mut item = bare_item("say \"hi\"\\\n", "a");
    item.subtitle = Some("tab\tcr\rbell\u{7}form\u{c}back\u{8}".to_string());
    assert_eq!(
        item.to_json(),
        "{\"title\":\"say \\\"hi\\\"\\\\\\n\",\"subtitle\":\"tab\\tcr\\rbell\\u0007form\\fback\\b\",\"arg\":\"a\"}"
    );
}

#[test]
fn items_wrap_in_one_object() {
    let items = Items { items: vec![bare_item("x", "y"), bare_item("z", "w")] };
    assert_eq!(
        items.to_json(),
        r#"{"items":[{"title":"x","arg":"y"},{"title":"z","arg":"w"}]}"#
    );
    let empty = Items { items: vec![] };
    assert_eq!(empty.to_json(), r#"{"items":[]}"#);
}

#[test]
fn icon_paths_fall_back_to_the_placeholder() {
    let icon = AuthorIcon::from_str("octocat").into_icon("/cache");
    assert_eq!(icon.path, "/cache/octocat.png");
    let fallback = AuthorIcon::from_str("").into_icon("/cache");
    assert_eq!(fallback.path, "/cache/octocat.png");
    let other = AuthorIcon::from_str("somebody").into_icon("/cache");
    assert_eq!(other.path, "/cache/somebody.png");
}

#[test]
fn owners_are_distinct_in_first_seen_order() {
    fn with_owner(owner: &str) -> Item {
        let mut item = bare_item("t", "a");
        item.variables = Some(vec![("owner".to_string(), VarValue::Str(owner.to_string()))]);
        item
    }
    let items = Items {
        items: vec![
            with_owner("b"),
            with_owner("a"),
            bare_item("no-owner", "x"),
            with_owner("b"),
            with_owner("c"),
        ],
    };
    assert_eq!(
        items.owners(),
        vec!["b".to_string(), "a".to_string(), "c".to_string()]
    );
}
