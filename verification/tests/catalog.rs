//! The providers and the default model of the configuration files.

use aside::catalog::{
    collect_model_ids, dedup_ids, display_name_from_entry, model_id_from,
    parse_catalog_with_display, parse_default_model, parse_models_catalog, provider_id_from,
    push_model_ids_from_value,
};
use aside::json::{parse_json, Json};

fn json(text: &str) -> Json {
    parse_json(text).expect("a JSON document")
}

#[test]
fn mod_catalog_parser_ignores_secret_adjacent_fields() {
    let value = json(
        r#"{
            "providers": [
                {
                    "id": "fake-alpha",
                    "apiKey": "FAKE-SECRET-DO-NOT-USE",
                    "authHeader": "FAKE-SECRET-DO-NOT-USE",
                    "baseUrl": "https://fake.example.invalid",
                    "models": [
                        {"id": "fake-alpha-model-b", "apiKey": "FAKE"},
                        {"id": "fake-alpha-model-a", "displayName": "Fake A"},
                        "fake-alpha-model-c"
                    ]
                },
                {
                    "name": "fake-beta",
                    "apiKey": "FAKE-SECRET-DO-NOT-USE",
                    "models": [
                        {"modelId": "fake-beta-model-1"},
                        {"model": "fake-beta-model-2"},
                        {"name": "fake-beta-model-3"}
                    ]
                },
                {"id": "fake-empty", "models": []},
                {"models": [{"id": "orphan"}]}
            ]
        }"#,
    );
    let catalog = parse_models_catalog(&value);
    assert_eq!(catalog.len(), 2);
    assert_eq!(catalog[0].0, "fake-alpha");
    assert_eq!(
        catalog[0].1,
        vec![
            "fake-alpha-model-b",
            "fake-alpha-model-a",
            "fake-alpha-model-c"
        ]
    );
    assert_eq!(catalog[1].0, "fake-beta");
    assert_eq!(
        catalog[1].1,
        vec![
            "fake-beta-model-1",
            "fake-beta-model-2",
            "fake-beta-model-3"
        ]
    );
}

#[test]
fn aside_catalog_parser_ignores_secret_adjacent_fields() {
    let value = json(
        r#"{
            "providers": [
                {
                    "id": "fake-alpha",
                    "apiKey": "FAKE-SECRET-DO-NOT-USE",
                    "authHeader": "FAKE-SECRET-DO-NOT-USE",
                    "baseUrl": "https://fake.example.invalid",
                    "models": [{"id": "fake-model-a"}, {"id": "fake-model-b"}]
                },
                {
                    "name": "fake-beta",
                    "apiKey": "FAKE-SECRET-DO-NOT-USE",
                    "models": [{"modelId": "fake-model-1"}]
                }
            ]
        }"#,
    );
    let catalog = parse_models_catalog(&value);
    assert_eq!(catalog.len(), 2);
    assert_eq!(catalog[0].0, "fake-alpha");
    assert_eq!(catalog[0].1.len(), 2);
    for (_, ids) in &catalog {
        for id in ids {
            assert!(!id.contains("FAKE-SECRET"));
            assert!(!id.contains("fake.example"));
        }
    }
}

#[test]
fn default_model_parser_reads_only_provider_and_model() {
    let value = json(
        r#"{
            "defaultModel": {
                "provider": "fake-beta",
                "modelId": "fake-beta-model-2",
                "thinkingLevel": "whatever",
                "fastMode": false
            }
        }"#,
    );
    assert_eq!(
        parse_default_model(&value),
        Some(("fake-beta".to_owned(), "fake-beta-model-2".to_owned()))
    );
    assert_eq!(parse_default_model(&json("{}")), None);
    assert_eq!(
        parse_default_model(&json(r#"{"defaultModel": {"provider": "x"}}"#)),
        None
    );
}

#[test]
fn catalog_parser_uses_dict_keys_and_collects_account_catalog() {
    let value = json(
        r#"{
            "providers": {
                "bedrock-sample": {
                    "name": "Bedrock Sample",
                    "apiKey": "FAKE-SECRET-DO-NOT-USE",
                    "baseUrl": "https://fake.example.invalid",
                    "models": [{"id": "fake-bedrock-model-a"}, "fake-shared-model"],
                    "accountModelCatalog": {
                        "modelIds": ["fake-shared-model", "fake-bedrock-model-b"]
                    }
                },
                "openai-codex": {
                    "apiKey": "FAKE-SECRET-DO-NOT-USE",
                    "accountModelCatalog": {
                        "modelIds": ["fake-codex-model-1"]
                    }
                },
                "fake-variant": {
                    "name": "Fake Display",
                    "models": ["fake-variant-model-1"],
                    "accountModelCatalog": {
                        "models": ["fake-variant-model-1", "fake-variant-model-2"]
                    }
                }
            }
        }"#,
    );
    let catalog = parse_models_catalog(&value);
    let by_id: std::collections::HashMap<_, _> = catalog.into_iter().collect();
    assert!(by_id.contains_key("bedrock-sample"));
    assert!(by_id.contains_key("openai-codex"));
    assert!(by_id.contains_key("fake-variant"));
    assert!(!by_id.contains_key("Bedrock Sample"));
    assert!(!by_id.contains_key("Fake Display"));
    assert_eq!(
        by_id["bedrock-sample"],
        vec![
            "fake-bedrock-model-a",
            "fake-shared-model",
            "fake-bedrock-model-b"
        ]
    );
    assert_eq!(by_id["openai-codex"], vec!["fake-codex-model-1"]);
    assert_eq!(
        by_id["fake-variant"],
        vec!["fake-variant-model-1", "fake-variant-model-2"]
    );
    for (_, ids) in &by_id {
        for id in ids {
            assert!(!id.contains("FAKE-SECRET"));
            assert!(!id.contains("fake.example"));
        }
    }
}

#[test]
fn display_name_is_the_trimmed_name_or_the_id() {
    let rows = parse_catalog_with_display(&json(
        r#"{"providers": {
            "a": {"name": "  Shown  ", "models": ["m"]},
            "b": {"name": "   ", "models": ["m"]},
            "c": {"name": 7, "models": ["m"]},
            " d ": ["m", "m", " n "],
            "  ": {"models": ["m"]},
            "e": "not a provider"
        }}"#,
    ));
    let shown: Vec<(&str, &str)> = rows.iter().map(|row| (row.0.as_str(), row.1.as_str())).collect();
    assert_eq!(shown, vec![("d", "d"), ("a", "Shown"), ("b", "b"), ("c", "c")]);
    assert_eq!(rows[0].2, vec!["m", "n"]);
    assert_eq!(display_name_from_entry(&json("{}"), "fallback"), "fallback");
}

#[test]
fn key_wins_over_the_id_in_the_entry() {
    let catalog = parse_models_catalog(&json(
        r#"{"providers": {"key": {"id": "other", "models": ["m"]}}}"#,
    ));
    assert_eq!(catalog, vec![("key".to_owned(), vec!["m".to_owned()])]);
}

#[test]
fn fields_that_are_not_read_change_nothing() {
    let plain = json(r#"{"providers": [{"id": "p", "models": [{"id": "m"}]}]}"#);
    let loaded = json(
        r#"{"secret": 1, "providers": [{"id": "p", "apiKey": "k", "headers": {"x": "y"},
            "models": [{"id": "m", "token": "t"}]}]}"#,
    );
    assert_eq!(parse_catalog_with_display(&plain), parse_catalog_with_display(&loaded));
}

#[test]
fn catalogs_of_other_shapes_are_empty() {
    for text in ["{}", "[]", "null", r#"{"providers": "x"}"#, r#"{"providers": [1, "p", []]}"#] {
        assert!(parse_models_catalog(&json(text)).is_empty(), "{}", text);
    }
}

#[test]
fn provider_ids_come_from_id_then_name_then_the_fallback() {
    assert_eq!(
        provider_id_from(&json(r#"{"id": " x ", "name": "y"}"#), None),
        Some("x".to_owned())
    );
    assert_eq!(
        provider_id_from(&json(r#"{"id": " ", "name": "y"}"#), Some("z")),
        Some("y".to_owned())
    );
    assert_eq!(provider_id_from(&json("{}"), Some(" z ")), Some("z".to_owned()));
    assert_eq!(provider_id_from(&json("{}"), Some("  ")), None);
    assert_eq!(provider_id_from(&json("{}"), None), None);
}

#[test]
fn model_ids_come_from_four_keys_in_order() {
    let all = r#"{"id": "a", "modelId": "b", "model": "c", "name": "d"}"#;
    assert_eq!(model_id_from(&json(all)), Some("a".to_owned()));
    let later = r#"{"id": 1, "modelId": "", "model": "c", "name": "d"}"#;
    assert_eq!(model_id_from(&json(later)), Some("c".to_owned()));
    assert_eq!(model_id_from(&json(r#"{"title": "t"}"#)), None);
}

#[test]
fn only_texts_and_objects_have_model_ids() {
    let mut ids = vec!["first".to_owned()];
    for text in [r#"" m ""#, r#""  ""#, "1", "true", "null", r#"["x"]"#, r#"{"id": "n"}"#, "{}"] {
        push_model_ids_from_value(&json(text), &mut ids);
    }
    assert_eq!(ids, vec!["first", "m", "n"]);
}

#[test]
fn repetitions_are_dropped_where_they_come_later() {
    let mut ids: Vec<String> = ["b", "a", "b", "c", "a"].iter().map(|id| id.to_string()).collect();
    dedup_ids(&mut ids);
    assert_eq!(ids, vec!["b", "a", "c"]);
}

#[test]
fn all_lists_of_a_provider_are_collected() {
    let entry = json(
        r#"{"models": ["a"], "accountModelCatalog":
            {"models": ["d", "a"], "model_ids": ["c"], "modelIds": ["b"], "other": ["x"]}}"#,
    );
    assert_eq!(collect_model_ids(&entry), vec!["a", "b", "c", "d"]);
    let listed = json(r#"{"models": "no", "accountModelCatalog": ["e", {"model": "f"}]}"#);
    assert_eq!(collect_model_ids(&listed), vec!["e", "f"]);
    assert!(collect_model_ids(&json(r#"{"accountModelCatalog": "none"}"#)).is_empty());
}

#[test]
fn default_model_takes_the_first_key_that_is_there() {
    assert_eq!(
        parse_default_model(&json(
            r#"{"defaultModel": {"providerId": " p ", "model": "m", "id": "n"}}"#
        )),
        Some(("p".to_owned(), "m".to_owned()))
    );
    // A key that is there but holds no text hides the keys after it.
    assert_eq!(
        parse_default_model(&json(
            r#"{"defaultModel": {"provider": null, "providerId": "p", "modelId": "m"}}"#
        )),
        None
    );
    assert_eq!(
        parse_default_model(&json(r#"{"defaultModel": {"provider": "p", "modelId": " "}}"#)),
        None
    );
    assert_eq!(parse_default_model(&json(r#"{"defaultModel": "p/m"}"#)), None);
}
