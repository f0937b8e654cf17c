//! Per-field rewrite policy, exercised on the plain entry model.

use clap_prefix::entry::ArgEntry;
use clap_prefix::rewrite::Field;

fn bare(n: &str) -> ArgEntry {
    ArgEntry::Bare(n.to_string())
}

fn nv(n: &str, v: &str) -> ArgEntry {
    ArgEntry::NameValue(n.to_string(), v.to_string())
}

fn job(prefix: &str, ident: &str, meta_items: Vec<ArgEntry>) -> Field {
    Field { ident: ident.to_string(), prefix: prefix.to_string(), meta_items }
}

#[test]
fn empty_incoming_list_synthesizes_id_and_value_name() {
    let out = job("myservice", "http_port", vec![]).get_new_meta_items();
    assert_eq!(
        out,
        vec![nv("id", "myservice_http_port"), nv("value_name", "MYSERVICE_HTTP_PORT")]
    );
}

#[test]
fn bound_long_is_kept_as_given() {
    let out = job("keycloak", "client_id", vec![nv("long", "clientid")]).get_new_meta_items();
    assert_eq!(
        out,
        vec![
            nv("id", "keycloak_client_id"),
            nv("value_name", "KEYCLOAK_CLIENT_ID"),
            nv("long", "clientid"),
        ]
    );
}

#[test]
fn bare_long_and_env_fall_back_to_derived_values() {
    let out = job(
        "keycloak",
        "realm",
        vec![bare("long"), bare("env"), nv("default_value", "master")],
    )
    .get_new_meta_items();
    assert_eq!(
        out,
        vec![
            nv("default_value", "master"),
            nv("id", "keycloak_realm"),
            nv("value_name", "KEYCLOAK_REALM"),
            nv("long", "keycloak-realm"),
            nv("env", "KEYCLOAK_REALM"),
        ]
    );
}

#[test]
fn bare_value_name_is_ignored_and_long_synthesized() {
    let out = job("keycloak", "secret", vec![bare("long"), bare("value_name")])
        .get_new_meta_items();
    assert_eq!(
        out,
        vec![
            nv("id", "keycloak_secret"),
            nv("value_name", "KEYCLOAK_SECRET"),
            nv("long", "keycloak-secret"),
        ]
    );
}

#[test]
fn bare_id_is_ignored() {
    let out = job("app", "port", vec![bare("id")]).get_new_meta_items();
    assert_eq!(out, vec![nv("id", "app_port"), nv("value_name", "APP_PORT")]);
}

#[test]
fn duplicate_overrides_last_wins() {
    let out = job("app", "port", vec![nv("long", "a"), nv("long", "b")]).get_new_meta_items();
    assert_eq!(
        out,
        vec![nv("id", "app_port"), nv("value_name", "APP_PORT"), nv("long", "b")]
    );
}

#[test]
fn bound_id_and_value_name_override_the_derived_values() {
    let out = job("app", "port", vec![nv("id", "custom"), nv("value_name", "CUSTOM")])
        .get_new_meta_items();
    assert_eq!(out, vec![nv("id", "custom"), nv("value_name", "CUSTOM")]);
}

#[test]
fn bound_id_equal_to_derived_is_still_emitted() {
    let out = job("app", "port", vec![nv("id", "app_port")]).get_new_meta_items();
    assert_eq!(out, vec![nv("id", "app_port"), nv("value_name", "APP_PORT")]);
}

#[test]
fn empty_override_for_long_and_env_triggers_derived_values() {
    let out = job("app", "port", vec![nv("long", ""), nv("env", "")]).get_new_meta_items();
    assert_eq!(
        out,
        vec![
            nv("id", "app_port"),
            nv("value_name", "APP_PORT"),
            nv("long", "app-port"),
            nv("env", "APP_PORT"),
        ]
    );
}

#[test]
fn bound_env_is_kept_when_non_empty() {
    let out = job("app", "port", vec![nv("env", "PORT_VAR")]).get_new_meta_items();
    assert_eq!(
        out,
        vec![nv("id", "app_port"), nv("value_name", "APP_PORT"), nv("env", "PORT_VAR")]
    );
}

#[test]
fn malformed_recognized_entries_follow_the_edge_policy() {
    // `id = 3` and `value_name(x)` are suppressed with nothing recorded;
    // `long(x)` counts as presence and falls back to the kebab form.
    let out = job(
        "app",
        "port",
        vec![
            ArgEntry::NamedOther("id".to_string(), "id = 3".to_string()),
            ArgEntry::NamedOther("value_name".to_string(), "value_name(x)".to_string()),
            ArgEntry::NamedOther("long".to_string(), "long(x)".to_string()),
        ],
    )
    .get_new_meta_items();
    assert_eq!(
        out,
        vec![nv("id", "app_port"), nv("value_name", "APP_PORT"), nv("long", "app-port")]
    );
}

#[test]
fn unrecognized_entries_pass_through_first_in_original_order() {
    let out = job(
        "app",
        "port",
        vec![
            bare("required"),
            nv("long", "p"),
            nv("help", "the port"),
            ArgEntry::Other("\"positional\"".to_string()),
        ],
    )
    .get_new_meta_items();
    assert_eq!(
        out,
        vec![
            bare("required"),
            nv("help", "the port"),
            ArgEntry::Other("\"positional\"".to_string()),
            nv("id", "app_port"),
            nv("value_name", "APP_PORT"),
            nv("long", "p"),
        ]
    );
}

#[test]
fn rewriting_twice_changes_nothing() {
    let first = job(
        "keycloak",
        "realm",
        vec![bare("long"), bare("env"), nv("default_value", "master")],
    )
    .get_new_meta_items();
    let second = job("keycloak", "realm", first.clone()).get_new_meta_items();
    assert_eq!(second, first);
}

#[test]
fn rewriting_twice_changes_nothing_with_overrides() {
    let first = job("app", "port", vec![nv("long", ""), nv("id", "x"), bare("env")])
        .get_new_meta_items();
    let second = job("app", "port", first.clone()).get_new_meta_items();
    assert_eq!(second, first);
}
