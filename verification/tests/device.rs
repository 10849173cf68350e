use fastpeq::device::{endpoint_guid, endpoint_state, is_apo_clsid, EndpointApo, EndpointKeys};

fn apo_keys(flag: Option<u32>) -> EndpointKeys {
    EndpointKeys {
        fx_values: Some(vec![
            "{C9453E73-8C5C-4463-9984-AF8BAB2F5447}".to_string(),
            "{ec1cc9ce-faed-4822-828a-82a81a6f018f}".to_string(),
        ]),
        disable_sysfx: flag,
    }
}

#[test]
fn extracts_the_endpoint_guid() {
    assert_eq!(
        endpoint_guid("{0.0.0.00000000}.{1e5df3a0-7d96-4c72-ba7b-e3f08c76332b}"),
        Some("{1e5df3a0-7d96-4c72-ba7b-e3f08c76332b}")
    );
}

#[test]
fn rejects_ids_without_a_trailing_guid() {
    assert_eq!(endpoint_guid(""), None);
    assert_eq!(endpoint_guid("no-braces-here"), None);
    // A truncated id: the last brace-group never closes.
    assert_eq!(endpoint_guid("{0.0.0.00000000}.{1e5df3a0-7d96"), None);
}

#[test]
fn matches_apo_clsids_case_insensitively() {
    assert!(is_apo_clsid("{EACD2258-FCAC-4FF4-B36D-419E924A6D79}"));
    assert!(is_apo_clsid("{ec1cc9ce-faed-4822-828a-82a81a6f018f}"));
    // Windows sometimes pads the stored string.
    assert!(is_apo_clsid("  {EACD2258-FCAC-4FF4-B36D-419E924A6D79}  "));
}

#[test]
fn ignores_other_vendors_clsids() {
    assert!(!is_apo_clsid("{C9453E73-8C5C-4463-9984-AF8BAB2F5447}"));
    assert!(!is_apo_clsid("{00000000-0000-0000-0000-000000000000}"));
    assert!(!is_apo_clsid(""));
}

/// An endpoint id without a trailing GUID is unknown, whatever the registry
/// holds — the UI must not turn red because a device vanished mid-check.
#[test]
fn unknown_for_a_malformed_id() {
    assert_eq!(endpoint_state("not-an-endpoint-id", None), EndpointApo::Unknown);
    assert_eq!(
        endpoint_state("not-an-endpoint-id", Some(&apo_keys(None))),
        EndpointApo::Unknown
    );
}

#[test]
fn endpoint_without_a_registry_entry_is_unknown() {
    assert_eq!(
        endpoint_state("{0.0.0.00000000}.{1e5df3a0-7d96-4c72-ba7b-e3f08c76332b}", None),
        EndpointApo::Unknown
    );
}

#[test]
fn registered_apo_with_enhancements_on_is_active() {
    let id = "{0.0.0.00000000}.{1e5df3a0-7d96-4c72-ba7b-e3f08c76332b}";
    assert_eq!(endpoint_state(id, Some(&apo_keys(None))), EndpointApo::Active);
    assert_eq!(endpoint_state(id, Some(&apo_keys(Some(0)))), EndpointApo::Active);
}

#[test]
fn registered_apo_with_enhancements_off_never_loads() {
    let id = "{0.0.0.00000000}.{1e5df3a0-7d96-4c72-ba7b-e3f08c76332b}";
    assert_eq!(
        endpoint_state(id, Some(&apo_keys(Some(1)))),
        EndpointApo::EnhancementsOff
    );
}

#[test]
fn endpoint_without_apo_effects_is_not_on_endpoint() {
    let id = "{0.0.0.00000000}.{1e5df3a0-7d96-4c72-ba7b-e3f08c76332b}";
    let no_fx = EndpointKeys {
        fx_values: None,
        disable_sysfx: None,
    };
    assert_eq!(endpoint_state(id, Some(&no_fx)), EndpointApo::NotOnEndpoint);
    let other = EndpointKeys {
        fx_values: Some(vec!["{C9453E73-8C5C-4463-9984-AF8BAB2F5447}".to_string()]),
        disable_sysfx: Some(1),
    };
    assert_eq!(endpoint_state(id, Some(&other)), EndpointApo::NotOnEndpoint);
}
