//! The catalog that is put together from the accounts' files.

use aside::discovery::{
    discover_catalog, discovered_models, live_catalog, promote, read_documents, AccountDocuments,
    AccountFiles,
};
use aside::json::parse_json;
use aside::models::{account_option, discovered_row, full_catalog, full_reasoning_ladder, static_models};
use aside::protocol::{Model, ReasoningLevel};

fn files(models: &str, settings: &str) -> AccountFiles {
    AccountFiles { models: Some(models.to_owned()), settings: Some(settings.to_owned()) }
}

fn ids(models: &[Model]) -> Vec<&str> {
    models.iter().map(|model| model.id.as_str()).collect()
}

fn model(id: &str) -> Model {
    Model {
        id: id.to_owned(),
        label: String::new(),
        description: None,
        reasoning_levels: vec![],
        options: vec![],
    }
}

#[test]
fn models_expose_only_supported_routing_and_picker_options() {
    let models = static_models();
    assert_eq!(
        models
            .iter()
            .map(|model| model.id.as_str())
            .collect::<Vec<_>>(),
        vec!["default", "fast"]
    );
    assert!(
        models
            .iter()
            .all(|model| model.options.iter().any(|option| option.id == "effort"))
    );
    assert!(
        models
            .iter()
            .all(|model| model.options.iter().any(|option| option.id == "permission"))
    );
    assert!(models.iter().all(|model| {
        model
            .options
            .iter()
            .all(|option| option.id != "provider" && option.id != "host")
    }));
}

#[test]
fn dynamic_catalog_imports_models_orders_default_and_routes_account() {
    let account = files(
        r#"{
            "providers": [
                {
                    "id": "fake-alpha",
                    "apiKey": "FAKE-SECRET-DO-NOT-USE",
                    "authHeader": "FAKE-SECRET-DO-NOT-USE",
                    "baseUrl": "https://fake.example.invalid",
                    "models": [{"id": "fake-model-b"}, {"id": "fake-model-a"}]
                },
                {
                    "id": "fake-beta",
                    "apiKey": "FAKE-SECRET-DO-NOT-USE",
                    "models": [{"id": "fake-model-2"}, {"id": "fake-model-1"}]
                }
            ]
        }"#,
        r#"{
            "defaultModel": {
                "provider": "fake-beta",
                "modelId": "fake-model-2",
                "thinkingLevel": "whatever",
                "fastMode": false
            },
            "modelCategories": {"deep": [], "fast": [], "standard": [], "visual": []},
            "customModels": []
        }"#,
    );
    let models = live_catalog(Some(&["u0".to_owned()]), &vec![account]);
    assert_eq!(models.len(), 2 + 4, "default/fast + 2 providers x 2 models");
    assert_eq!(models[0].id.as_str(), "default");
    assert_eq!(models[1].id.as_str(), "fast");
    assert_eq!(models[2].id.as_str(), "fake-beta/fake-model-2");
    let rest: Vec<_> = models[3..].iter().map(|m| m.id.as_str()).collect();
    assert_eq!(
        rest,
        vec![
            "fake-alpha/fake-model-a",
            "fake-alpha/fake-model-b",
            "fake-beta/fake-model-1",
        ]
    );
    for model in &models[2..] {
        assert_eq!(model.label.as_str(), model.id.split('/').nth(1).unwrap());
        assert!(model.description.as_deref().unwrap().ends_with(" via Aside"));
        assert!(model.reasoning_levels.contains(&ReasoningLevel::Max));
        assert!(model.options.iter().any(|o| o.id == "effort"));
        assert!(model.options.iter().any(|o| o.id == "permission"));
    }
    for model in &models {
        let option = model
            .options
            .iter()
            .find(|o| o.id == "account")
            .expect("account option present");
        assert_eq!(
            option.choices.iter().map(|c| c.id.as_str()).collect::<Vec<_>>(),
            vec!["u0"]
        );
        assert_eq!(option.default_choice.as_str(), "u0");
    }
}

#[test]
fn dict_catalog_uses_true_ids_collects_account_models_promotes_default() {
    let account = files(
        r#"{
            "providers": {
                "bedrock-sample": {
                    "name": "Bedrock Sample",
                    "apiKey": "FAKE-SECRET-DO-NOT-USE",
                    "authHeader": "FAKE-SECRET-DO-NOT-USE",
                    "baseUrl": "https://fake.example.invalid",
                    "models": [
                        {"id": "fake-bedrock-model-b"},
                        {"id": "fake-bedrock-model-a"},
                        "fake-shared-model"
                    ],
                    "accountModelCatalog": {
                        "modelIds": ["fake-shared-model", "fake-bedrock-model-c"]
                    }
                },
                "openai-codex": {
                    "apiKey": "FAKE-SECRET-DO-NOT-USE",
                    "baseUrl": "https://fake.example.invalid",
                    "accountModelCatalog": {
                        "modelIds": ["fake-codex-model-2", "fake-codex-model-1"]
                    }
                },
                "fake-variant": {
                    "name": "Fake Display",
                    "models": ["fake-variant-model-1"],
                    "accountModelCatalog": {
                        "models": [{"id": "fake-variant-model-1"}, "fake-variant-model-2"]
                    }
                },
                "fake-empty": {
                    "name": "Fake Empty Display",
                    "apiKey": "FAKE-SECRET-DO-NOT-USE"
                }
            }
        }"#,
        r#"{
            "defaultModel": {
                "provider": "bedrock-sample",
                "modelId": "fake-bedrock-model-b",
                "thinkingLevel": "whatever",
                "fastMode": false
            }
        }"#,
    );
    let models = live_catalog(Some(&["u0".to_owned()]), &vec![account]);
    assert_eq!(models.len(), 2 + 8, "ids: {:?}", models.iter().map(|m| &m.id).collect::<Vec<_>>());
    assert_eq!(models[0].id.as_str(), "default");
    assert_eq!(models[1].id.as_str(), "fast");
    assert_eq!(models[2].id.as_str(), "bedrock-sample/fake-bedrock-model-b");
    let rest: Vec<_> = models[3..].iter().map(|m| m.id.as_str()).collect();
    assert_eq!(
        rest,
        vec![
            "bedrock-sample/fake-bedrock-model-a",
            "bedrock-sample/fake-bedrock-model-c",
            "bedrock-sample/fake-shared-model",
            "fake-variant/fake-variant-model-1",
            "fake-variant/fake-variant-model-2",
            "openai-codex/fake-codex-model-1",
            "openai-codex/fake-codex-model-2",
        ]
    );
    for model in &models[2..] {
        assert!(
            !model.id.contains("Bedrock Sample") && !model.id.contains("Fake Display"),
            "id must use dict key: {}",
            model.id
        );
    }
    for model in &models[2..] {
        let description = model.description.as_deref().unwrap();
        assert!(description.ends_with(" via Aside"), "{description}");
        if model.id.starts_with("bedrock-sample/") {
            assert_eq!(description, "Bedrock Sample via Aside");
        } else if model.id.starts_with("openai-codex/") {
            assert_eq!(description, "openai-codex via Aside");
        } else if model.id.starts_with("fake-variant/") {
            assert_eq!(description, "Fake Display via Aside");
        }
        assert_eq!(model.label.as_str(), model.id.split('/').nth(1).unwrap());
    }
    {
        let mut seen = std::collections::HashSet::new();
        for model in &models {
            assert!(seen.insert(model.id.clone()), "duplicate id: {}", model.id);
        }
    }
    for model in &models {
        assert!(!model.id.contains("FAKE-SECRET"));
        assert!(!model.id.contains("fake.example"));
        let description = model.description.as_deref().unwrap_or("");
        assert!(!description.contains("FAKE-SECRET"));
    }
}

#[test]
fn catalog_falls_back_to_the_routing_rows() {
    let account = files(r#"{"providers": {"p": ["m"]}}"#, "{}");
    assert_eq!(live_catalog(None, &vec![account]), static_models());
    let account = files(r#"{"providers": {"p": ["m"]}}"#, "{}");
    assert_eq!(live_catalog(Some(&[]), &vec![account]), static_models());
    let unreadable = AccountFiles { models: None, settings: None };
    let rows = live_catalog(Some(&["u4".to_owned(), "u1".to_owned()]), &vec![unreadable]);
    assert_eq!(ids(&rows), vec!["default", "fast"]);
    assert_eq!(rows[0].options[2], account_option(&["u4".to_owned(), "u1".to_owned()]));
    assert_eq!(rows[0].options[2].default_choice, "u4");
}

#[test]
fn accounts_are_merged_and_the_first_display_name_stays() {
    let rows = discover_catalog(&vec![
        files(r#"{"providers": {"p": {"name": "First", "models": ["m"]}}}"#, "not json"),
        files(
            r#"{"providers": {"p": {"name": "Second", "models": ["m", "a"]}, "b": ["z"]}}"#,
            r#"{"defaultModel": {"provider": "p", "modelId": "a"}}"#,
        ),
        files(
            r#"{"providers": {}}"#,
            r#"{"defaultModel": {"provider": "b", "modelId": "z"}}"#,
        ),
    ]);
    assert_eq!(ids(&rows), vec!["p/a", "b/z", "p/m"]);
    assert_eq!(rows[2].description.as_deref(), Some("First via Aside"));
    assert_eq!(rows[0].description.as_deref(), Some("Second via Aside"));
    assert_eq!(rows[1].description.as_deref(), Some("b via Aside"));
}

#[test]
fn settings_of_an_account_without_a_catalog_do_not_count() {
    let rows = discover_catalog(&vec![
        files("broken", r#"{"defaultModel": {"provider": "p", "modelId": "b"}}"#),
        files(r#"{"providers": {"p": ["a", "b"]}}"#, "{}"),
    ]);
    assert_eq!(ids(&rows), vec!["p/a", "p/b"]);
}

#[test]
fn models_are_ordered_by_provider_before_the_slash_is_put_in() {
    // By whole ids `a-b/x` would come before `a/x`.
    let rows = discovered_models(&vec![AccountDocuments {
        models: parse_json(r#"{"providers": {"a-b": ["x"], "a": ["y", "x"]}}"#),
        settings: None,
    }]);
    assert_eq!(ids(&rows), vec!["a/x", "a/y", "a-b/x"]);
}

#[test]
fn of_two_models_with_one_row_id_the_first_has_the_row() {
    let rows = discovered_models(&vec![AccountDocuments {
        models: parse_json(r#"{"providers": {"a/b": ["c"], "a": ["b/c"]}}"#),
        settings: None,
    }]);
    assert_eq!(ids(&rows), vec!["a/b/c"]);
    assert_eq!(rows[0].label, "b/c");
}

#[test]
fn promotion_keeps_the_order_of_the_others() {
    let default = Some(("p".to_owned(), "c".to_owned()));
    let rows = promote(vec![model("p/a"), model("p/b"), model("p/c"), model("p/d")], &default);
    assert_eq!(ids(&rows), vec!["p/c", "p/a", "p/b", "p/d"]);
    let unknown = Some(("q".to_owned(), "c".to_owned()));
    let rows = promote(vec![model("p/a"), model("p/b")], &unknown);
    assert_eq!(ids(&rows), vec!["p/a", "p/b"]);
    assert_eq!(ids(&promote(vec![model("p/a")], &None)), vec!["p/a"]);
}

#[test]
fn files_are_read_as_documents() {
    let read = read_documents(&files(r#"{"a": 1}"#, "{"));
    assert_eq!(read.models, parse_json(r#"{"a": 1}"#));
    assert_eq!(read.settings, None);
}

#[test]
fn account_option_is_on_every_row_or_on_none() {
    let with = full_catalog(vec![model("p/m")], &["u1".to_owned()]);
    assert_eq!(ids(&with), vec!["default", "fast", "p/m"]);
    assert!(with.iter().all(|row| row.options.last().unwrap().id == "account"));
    let without = full_catalog(vec![model("p/m")], &[]);
    assert!(without.iter().all(|row| row.options.iter().all(|option| option.id != "account")));
    assert_eq!(account_option(&[]).default_choice, "");
}

#[test]
fn routing_rows_are_spelled_out() {
    let rows = static_models();
    assert_eq!(rows[0].label, "Default");
    assert_eq!(rows[0].description.as_deref(), Some("Aside's default model routing"));
    assert_eq!(rows[1].label, "Fast");
    assert_eq!(rows[1].description.as_deref(), Some("Aside's fast model routing"));
    assert!(rows.iter().all(|row| row.reasoning_levels.is_empty()));
    let found = discovered_row("p", "Provider", "m");
    assert_eq!(found.id, "p/m");
    assert_eq!(found.description.as_deref(), Some("Provider via Aside"));
    assert_eq!(found.reasoning_levels, full_reasoning_ladder());
    let effort = &rows[0].options[0];
    assert_eq!(effort.label, "Thinking Effort");
    assert_eq!(effort.default_choice, "default");
    assert_eq!(
        effort.choices.iter().map(|choice| choice.id.as_str()).collect::<Vec<_>>(),
        vec![
            "default",
            "off",
            "minimal",
            "low",
            "medium",
            "high",
            "xhigh",
            "max",
            "ultrabrowse"
        ]
    );
    let permission = &rows[1].options[1];
    assert_eq!(permission.default_choice, "guard");
    assert_eq!(
        permission
            .choices
            .iter()
            .map(|choice| (choice.id.as_str(), choice.label.as_str()))
            .collect::<Vec<_>>(),
        vec![("ask", "Ask"), ("guard", "Guard"), ("full-access", "Full Access")]
    );
}

#[test]
fn display_names_play_no_part_in_the_order() {
    let first = discovered_models(&vec![AccountDocuments {
        models: parse_json(r#"{"providers": {"a": {"name": "Z", "models": ["m"]}, "b": ["m"]}}"#),
        settings: None,
    }]);
    let second = discovered_models(&vec![AccountDocuments {
        models: parse_json(r#"{"providers": {"a": {"name": "A", "models": ["m"]}, "b": ["m"]}}"#),
        settings: None,
    }]);
    assert_eq!(ids(&first), ids(&second));
    assert_ne!(first, second);
}

#[test]
fn settings_besides_the_default_model_change_nothing() {
    let catalog = r#"{"providers": {"p": ["a", "b"]}}"#;
    let plain = discover_catalog(&vec![files(
        catalog,
        r#"{"defaultModel": {"provider": "p", "modelId": "b"}}"#,
    )]);
    let loaded = discover_catalog(&vec![files(
        catalog,
        r#"{"defaultModel": {"provider": "p", "modelId": "b", "fastMode": true}, "theme": "dark"}"#,
    )]);
    assert_eq!(plain, loaded);
    assert_eq!(ids(&plain), vec!["p/b", "p/a"]);
}
