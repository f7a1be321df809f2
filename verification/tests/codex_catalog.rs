use hiroute::agents::codex_catalog::{CodexCatalogError, CodexCatalogSelection, CodexDefaultPolicy};
use hiroute::json::{parse_json, to_bytes, Json};

fn names() -> Vec<String> {
    [
        "Later.Model", "First/Model", "subscription", "api", "hidden", "visible", "later", "z-first",
        "a-second", "external", "plan", "last", "same",
    ]
    .iter()
    .map(|name| name.to_string())
    .collect()
}

fn json(text: &str) -> Json {
    parse_json(text.as_bytes()).unwrap()
}

fn value(json: &Json) -> serde_json::Value {
    serde_json::from_slice(&to_bytes(json)).unwrap()
}

fn entry(slug: &str, priority: i32, visibility: &str, api: bool) -> String {
    format!("{{\"slug\": \"{slug}\", \"priority\": {priority}, \"visibility\": \"{visibility}\", \"supported_in_api\": {api}, \"unknown\": {{\"original\": true}}}}")
}

fn catalog(models: &[String]) -> CodexCatalogSelection {
    let text = format!(
        "{{\"models\": [{}], \"opaque\": {{\"retain\": [null, 7]}}}}",
        models.join(",")
    );
    CodexCatalogSelection::parse(json(&text), &names()).unwrap()
}

fn policy() -> CodexDefaultPolicy<'static> {
    CodexDefaultPolicy {
        explicit_model: None,
        uses_codex_backend: false,
        allow_provider_model_fallback: false,
    }
}

#[test]
fn preserves_original_json_and_orders_only_selection() {
    let models = [
        entry("Later.Model", 9, "list", true),
        entry("First/Model", -1, "list", true),
    ];
    let source = catalog(&models);
    let original = value(source.original());
    let expected: serde_json::Value =
        serde_json::from_str(&format!("[{}]", models.join(","))).unwrap();
    assert_eq!(original["models"], expected);
    assert_eq!(original["opaque"]["retain"], serde_json::from_str::<serde_json::Value>("[null,7]").unwrap());
    assert_eq!(source.effective_default(policy(), &names()), Ok("First/Model"));
    assert_eq!(source.plan_priorities(2), Ok(vec![10, 11]));
}

#[test]
fn auth_filters_before_picker_default() {
    let source = catalog(&[
        entry("subscription", 0, "list", false),
        entry("api", 1, "list", true),
    ]);
    assert_eq!(source.effective_default(policy(), &names()), Ok("api"));
    assert_eq!(
        source.effective_default(
            CodexDefaultPolicy { uses_codex_backend: true, ..policy() },
            &names()
        ),
        Ok("subscription")
    );
}

#[test]
fn visible_model_precedes_hidden_default_but_hidden_is_last_resort() {
    let source = catalog(&[entry("hidden", 0, "hide", true), entry("visible", 1, "list", true)]);
    assert_eq!(source.effective_default(policy(), &names()), Ok("visible"));
    let source = catalog(&[entry("hidden", 0, "none", true), entry("later", 1, "hide", true)]);
    assert_eq!(source.effective_default(policy(), &names()), Ok("hidden"));
}

#[test]
fn equal_priority_preserves_original_order() {
    let source = catalog(&[entry("z-first", 0, "list", true), entry("a-second", 0, "list", true)]);
    assert_eq!(source.effective_default(policy(), &names()), Ok("z-first"));
}

#[test]
fn explicit_default_obeys_provider_fallback_without_writing_model() {
    let source = catalog(&[entry("api", 1, "list", true)]);
    let explicit = CodexDefaultPolicy { explicit_model: Some("external"), ..policy() };
    assert_eq!(source.effective_default(explicit, &names()), Ok("external"));
    let explicit = CodexDefaultPolicy {
        explicit_model: Some("external"),
        allow_provider_model_fallback: true,
        ..policy()
    };
    assert_eq!(source.effective_default(explicit, &names()), Ok("api"));
    assert!(value(source.original()).get("model").is_none());
}

#[test]
fn missing_available_model_does_not_invent_a_default() {
    let source = catalog(&[entry("subscription", 0, "list", false)]);
    assert_eq!(
        source.effective_default(policy(), &names()),
        Err(CodexCatalogError::MissingDefault)
    );
}

#[test]
fn appended_visible_plan_must_not_replace_hidden_native_default() {
    let native = entry("hidden", 0, "hide", true);
    let source = catalog(&[native.clone()]);
    let updated = catalog(&[native, entry("plan", 1, "list", true)]);
    assert_eq!(
        source.require_preserved_default(&updated, policy(), &names()),
        Err(CodexCatalogError::DefaultChanged)
    );
    assert_eq!(
        source.require_preserved_default(
            &updated,
            CodexDefaultPolicy { explicit_model: Some("hidden"), ..policy() },
            &names()
        ),
        Ok(())
    );
}

#[test]
fn priority_overflow_is_rejected_without_changing_original() {
    let source = catalog(&[entry("last", i32::MAX, "list", true)]);
    assert_eq!(source.plan_priorities(1), Err(CodexCatalogError::PriorityExhausted));
    assert_eq!(source.plan_priorities(0), Ok(vec![]));
}

#[test]
fn duplicate_original_names_are_not_merged() {
    let text = format!(
        "{{\"models\": [{}, {}]}}",
        entry("same", 0, "list", true),
        entry("same", 1, "hide", false)
    );
    assert!(matches!(
        CodexCatalogSelection::parse(json(&text), &names()),
        Err(CodexCatalogError::InvalidCatalog)
    ));
}

#[test]
fn model_list_projection_is_not_an_original_catalog() {
    assert!(matches!(
        CodexCatalogSelection::parse(json("{\"data\": [{\"id\": \"api\"}]}"), &names()),
        Err(CodexCatalogError::InvalidCatalog)
    ));
}

#[test]
fn empty_catalog_does_not_invent_metadata() {
    assert!(matches!(
        CodexCatalogSelection::parse(json("{\"models\": []}"), &names()),
        Err(CodexCatalogError::InvalidCatalog)
    ));
}

#[test]
fn incomplete_selection_facts_are_rejected() {
    assert!(matches!(
        CodexCatalogSelection::parse(
            json("{\"models\": [{\"slug\": \"api\", \"priority\": 0}]}"),
            &names()
        ),
        Err(CodexCatalogError::InvalidCatalog)
    ));
}

#[test]
fn names_that_no_client_can_use_are_rejected() {
    let text = format!("{{\"models\": [{}]}}", entry("unknown", 0, "list", true));
    assert!(CodexCatalogSelection::parse(json(&text), &names()).is_err());
    let source = catalog(&[entry("api", 1, "list", true)]);
    assert_eq!(
        source.effective_default(
            CodexDefaultPolicy { explicit_model: Some("unknown"), ..policy() },
            &names()
        ),
        Err(CodexCatalogError::MissingDefault)
    );
}

#[test]
fn current_adapters_need_the_schema_too() {
    let text = format!("{{\"models\": [{}]}}", entry("api", 0, "list", true));
    assert!(CodexCatalogSelection::for_current_adapter(json(&text), &names(), true).is_ok());
    assert!(matches!(
        CodexCatalogSelection::for_current_adapter(json(&text), &names(), false),
        Err(CodexCatalogError::InvalidCatalog)
    ));
}

#[test]
fn catalog_errors_say_what_is_wrong() {
    assert_eq!(
        CodexCatalogError::InvalidCatalog.message(),
        "the catalog selection fields are invalid or ambiguous"
    );
    assert_eq!(
        CodexCatalogError::MissingDefault.message(),
        "the native default cannot be resolved"
    );
}
