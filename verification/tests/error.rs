use onejudge::{Error, ProviderErrorKind};

#[test]
fn kind_string_forms_agree() {
    let all = [
        ProviderErrorKind::Auth,
        ProviderErrorKind::RateLimit,
        ProviderErrorKind::ModelNotFound,
        ProviderErrorKind::Quota,
        ProviderErrorKind::Overloaded,
        ProviderErrorKind::Timeout,
        ProviderErrorKind::Spawn,
        ProviderErrorKind::Protocol,
        ProviderErrorKind::Other,
    ];
    for kind in all {
        let wire = kind.as_str();
        assert_eq!(kind.render(), wire);
        assert_eq!(ProviderErrorKind::classify(wire), kind);
    }
}

#[test]
fn kinds_have_their_wire_names() {
    assert_eq!(ProviderErrorKind::RateLimit.as_str(), "rate_limit");
    assert_eq!(
        ProviderErrorKind::ModelNotFound.as_str(),
        "model_not_found"
    );
    assert_eq!(
        ProviderErrorKind::classify("cancelled"),
        ProviderErrorKind::Cancelled
    );
}

#[test]
fn classify_maps_unknown_labels_to_other() {
    assert_eq!(
        ProviderErrorKind::classify("brand_new_upstream_kind"),
        ProviderErrorKind::Other
    );
}

#[test]
fn provider_helpers_set_context_and_kind() {
    let plain = Error::provider("respond", "boom");
    assert_eq!(plain.kind(), None);
    assert!(plain.render().contains("respond"));

    let classified = Error::provider_classified("judge", "denied", ProviderErrorKind::Auth);
    assert_eq!(classified.kind(), Some(ProviderErrorKind::Auth));

    assert_eq!(Error::Invalid("x".into()).kind(), None);
    assert_eq!(classified.copied(), classified);
}
