use config_exchanger::{
    create_file, load_file, parse_config_file, split_text, write_on_file, Config, ConfigError,
};

fn lines(text: &[&str]) -> Vec<String> {
    text.iter().map(|l| l.to_string()).collect()
}

#[test]
fn parses_full_configuration() {
    let cfg = parse_config_file(&lines(&[
        "# settings",
        "source=doc_1.xml",
        "destination=doc_2.xml",
        "sort_key=name",
        "value_key=value",
        "tags_to_ignore=param::interOptWithCT, group::directories",
    ]))
    .unwrap();
    assert_eq!(
        cfg,
        Config {
            source: "doc_1.xml".to_string(),
            destination: "doc_2.xml".to_string(),
            sort_key: "name".to_string(),
            value_key: "value".to_string(),
            tags_to_ignore: vec![
                "param::interOptWithCT".to_string(),
                "group::directories".to_string()
            ],
        }
    );
}

#[test]
fn missing_source_line() {
    let r = parse_config_file(&lines(&["destination=a", "sort_key=b"]));
    assert_eq!(r, Err(ConfigError::Source));
    assert_eq!(parse_config_file(&Vec::new()), Err(ConfigError::Source));
}

#[test]
fn out_of_place_lines() {
    let r = parse_config_file(&lines(&["source=a", "sort_key=b"]));
    assert_eq!(r, Err(ConfigError::Destination));
    let r = parse_config_file(&lines(&["source=a", "destination=b", "value_key=c"]));
    assert_eq!(r, Err(ConfigError::SortKey));
    let r = parse_config_file(&lines(&["source=a", "destination=b", "sort_key=c", "x=d"]));
    assert_eq!(r, Err(ConfigError::ValueKey));
    let r = parse_config_file(&lines(&[
        "source=a",
        "destination=b",
        "sort_key=c",
        "value_key=d",
        "tags=e",
    ]));
    assert_eq!(r, Err(ConfigError::TagsToIgnore));
}

#[test]
fn short_file_leaves_settings_empty() {
    let cfg = parse_config_file(&lines(&["source=a=b", "destination=c"])).unwrap();
    assert_eq!(cfg.source, "a=b");
    assert_eq!(cfg.destination, "c");
    assert_eq!(cfg.sort_key, "");
    assert_eq!(cfg.value_key, "");
    assert!(cfg.tags_to_ignore.is_empty());
}

#[test]
fn values_keep_equal_signs() {
    let cfg = parse_config_file(&lines(&[
        "source=a=b.xml",
        "destination=d.xml",
        "sort_key=k",
        "value_key=v",
        "tags_to_ignore=x=1, y",
    ]))
    .unwrap();
    assert_eq!(cfg.source, "a=b.xml");
    assert_eq!(cfg.destination, "d.xml");
    assert_eq!(cfg.tags_to_ignore, vec!["x=1".to_string(), "y".to_string()]);
}

#[test]
fn empty_tag_list_is_one_empty_rule() {
    let cfg = parse_config_file(&lines(&[
        "source=a",
        "destination=b",
        "sort_key=c",
        "value_key=d",
        "tags_to_ignore=",
    ]))
    .unwrap();
    assert_eq!(cfg.tags_to_ignore, vec![String::new()]);
}

#[test]
fn splits_around_separator() {
    assert_eq!(split_text("a,b,,c", ','), vec!["a", "b", "", "c"]);
    assert_eq!(split_text("", ','), vec![""]);
    assert_eq!(split_text("abc", ','), vec!["abc"]);
    assert_eq!(split_text("key=", '='), vec!["key", ""]);
}

#[test]
fn backup_name() {
    assert_eq!(create_file("doc_2.xml"), "doc_2.xml.OLD");
}

#[test]
fn load_and_write_messages() {
    assert_eq!(load_file("a.xml", Ok("text".to_string())), Ok("text".to_string()));
    assert_eq!(
        load_file("a.xml", Err("not found".to_string())),
        Err("Error on loading file a.xml: not found".to_string())
    );
    assert_eq!(write_on_file("Document", Ok(())), Ok(()));
    assert_eq!(
        write_on_file("Document", Err("disk full".to_string())),
        Err("Unable to write data in the new file on Document: disk full".to_string())
    );
}
