use cc_switch_omo::database::{Database, DbError};
use cc_switch_omo::omo::{
    disable_current_omo, disable_current_omo_slim, disable_current_omo_test_hook,
    get_current_omo_provider_id, get_current_omo_provider_id_test_hook,
    get_current_omo_slim_provider_id, variant_for_category, AppState, OmoVariant, SLIM, STANDARD,
};
use cc_switch_omo::provider::Provider;

fn seeded_state() -> AppState {
    let mut db = Database::new();
    db.save_provider("opencode", Provider::new("std-a", Some("omo")));
    db.save_provider("opencode", Provider::new("std-b", Some("omo")));
    db.save_provider("opencode", Provider::new("slim-a", Some("omo-slim")));
    db.save_provider("opencode", Provider::new("plain", None));
    db.save_provider("codex", Provider::new("other-app", Some("omo")));
    AppState::new(db)
}

#[test]
fn empty_state_has_no_current_provider() {
    let state = AppState::new(Database::new());
    assert_eq!(get_current_omo_provider_id(&state), "");
    assert_eq!(get_current_omo_slim_provider_id(&state), "");
    assert_eq!(get_current_omo_provider_id_test_hook(&state, "omo"), "");
}

#[test]
fn current_provider_id_follows_set_current() {
    let mut state = seeded_state();
    assert_eq!(get_current_omo_provider_id(&state), "");
    assert_eq!(state.db.set_omo_provider_current("opencode", "std-b", "omo"), Ok(()));
    assert_eq!(get_current_omo_provider_id(&state), "std-b");
    assert_eq!(get_current_omo_slim_provider_id(&state), "");
    assert_eq!(state.db.set_omo_provider_current("opencode", "slim-a", "omo-slim"), Ok(()));
    assert_eq!(get_current_omo_slim_provider_id(&state), "slim-a");
    assert_eq!(get_current_omo_provider_id_test_hook(&state, "omo-slim"), "slim-a");
    // switching within a category replaces the previous current provider
    assert_eq!(state.db.set_omo_provider_current("opencode", "std-a", "omo"), Ok(()));
    assert_eq!(get_current_omo_provider_id(&state), "std-a");
}

#[test]
fn set_current_rejects_unknown_or_miscategorised_provider() {
    let mut state = seeded_state();
    assert_eq!(
        state.db.set_omo_provider_current("opencode", "missing", "omo"),
        Err(DbError::ProviderNotFound)
    );
    assert_eq!(
        state.db.set_omo_provider_current("opencode", "slim-a", "omo"),
        Err(DbError::ProviderNotFound)
    );
    assert_eq!(
        state.db.set_omo_provider_current("opencode", "other-app", "omo"),
        Err(DbError::ProviderNotFound)
    );
    assert_eq!(get_current_omo_provider_id(&state), "");
}

#[test]
fn disable_current_omo_clears_only_the_standard_category() {
    let mut state = seeded_state();
    state.db.set_omo_provider_current("opencode", "std-a", "omo").unwrap();
    state.db.set_omo_provider_current("opencode", "slim-a", "omo-slim").unwrap();
    state.db.set_omo_provider_current("codex", "other-app", "omo").unwrap();
    assert_eq!(disable_current_omo(&mut state), OmoVariant::Standard);
    assert_eq!(get_current_omo_provider_id(&state), "");
    assert_eq!(get_current_omo_slim_provider_id(&state), "slim-a");
    let other = state.db.get_current_omo_provider("codex", "omo").unwrap();
    assert_eq!(other.id, "other-app");
    // the providers themselves stay
    assert_eq!(state.db.get_all_providers("opencode").len(), 4);
}

#[test]
fn disable_current_omo_slim_clears_only_the_slim_category() {
    let mut state = seeded_state();
    state.db.set_omo_provider_current("opencode", "std-b", "omo").unwrap();
    state.db.set_omo_provider_current("opencode", "slim-a", "omo-slim").unwrap();
    assert_eq!(disable_current_omo_slim(&mut state), OmoVariant::Slim);
    assert_eq!(get_current_omo_slim_provider_id(&state), "");
    assert_eq!(get_current_omo_provider_id(&state), "std-b");
}

#[test]
fn disable_hook_picks_config_variant_by_category() {
    let mut state = seeded_state();
    assert_eq!(disable_current_omo_test_hook(&mut state, "omo"), OmoVariant::Standard);
    assert_eq!(disable_current_omo_test_hook(&mut state, "omo-slim"), OmoVariant::Slim);
    // any category other than the standard one is handled as the slim variant
    assert_eq!(disable_current_omo_test_hook(&mut state, "custom"), OmoVariant::Slim);
}

#[test]
fn disable_is_idempotent() {
    let mut state = seeded_state();
    state.db.set_omo_provider_current("opencode", "std-a", "omo").unwrap();
    disable_current_omo_test_hook(&mut state, "omo");
    disable_current_omo_test_hook(&mut state, "omo");
    assert_eq!(get_current_omo_provider_id_test_hook(&state, "omo"), "");
    assert_eq!(state.db.get_all_providers("opencode").len(), 4);
}

#[test]
fn variants_map_to_their_categories_and_files() {
    assert_eq!(STANDARD.category(), "omo");
    assert_eq!(SLIM.category(), "omo-slim");
    assert_eq!(STANDARD.config_file_name(), "oh-my-opencode.jsonc");
    assert_eq!(SLIM.config_file_name(), "oh-my-opencode-slim.jsonc");
    assert_eq!(variant_for_category("omo"), OmoVariant::Standard);
    assert_eq!(variant_for_category("omo-slim"), OmoVariant::Slim);
    assert_eq!(variant_for_category(STANDARD.category()), STANDARD);
    assert_eq!(variant_for_category(SLIM.category()), SLIM);
}

#[test]
fn saving_lists_providers_in_first_saved_order() {
    let state = seeded_state();
    let ids: Vec<String> = state
        .db
        .get_all_providers("opencode")
        .into_iter()
        .map(|p| p.id)
        .collect();
    assert_eq!(ids, vec!["std-a", "std-b", "slim-a", "plain"]);
    let others = state.db.get_all_providers("codex");
    assert_eq!(others.len(), 1);
    assert_eq!(others[0].id, "other-app");
    assert!(state.db.get_all_providers("gemini").is_empty());
}

#[test]
fn resaving_a_provider_replaces_it_in_place() {
    let mut state = seeded_state();
    state.db.set_omo_provider_current("opencode", "std-a", "omo").unwrap();
    // same category: the provider stays current
    state.db.save_provider("opencode", Provider::new("std-a", Some("omo")));
    assert_eq!(get_current_omo_provider_id(&state), "std-a");
    // moved to another category: it is no longer current anywhere
    state.db.save_provider("opencode", Provider::new("std-a", Some("omo-slim")));
    assert_eq!(get_current_omo_provider_id(&state), "");
    assert_eq!(get_current_omo_slim_provider_id(&state), "");
    let all = state.db.get_all_providers("opencode");
    assert_eq!(all.len(), 4);
    assert_eq!(all[0].id, "std-a");
    assert_eq!(all[0].category.as_deref(), Some("omo-slim"));
}

#[test]
fn clearing_a_provider_only_affects_that_provider() {
    let mut state = seeded_state();
    state.db.set_omo_provider_current("opencode", "std-b", "omo").unwrap();
    // clearing a provider that is not current changes nothing
    state.db.clear_omo_provider_current("opencode", "std-a", "omo");
    assert_eq!(get_current_omo_provider_id(&state), "std-b");
    // clearing under the wrong category changes nothing
    state.db.clear_omo_provider_current("opencode", "std-b", "omo-slim");
    assert_eq!(get_current_omo_provider_id(&state), "std-b");
    // clearing the current provider leaves the category without one
    state.db.clear_omo_provider_current("opencode", "std-b", "omo");
    assert_eq!(get_current_omo_provider_id(&state), "");
}

#[test]
fn disable_then_set_again_restores_a_current_provider() {
    let mut state = seeded_state();
    state.db.set_omo_provider_current("opencode", "std-a", "omo").unwrap();
    disable_current_omo(&mut state);
    assert_eq!(get_current_omo_provider_id(&state), "");
    state.db.set_omo_provider_current("opencode", "std-b", "omo").unwrap();
    assert_eq!(get_current_omo_provider_id(&state), "std-b");
}
