use falcon::feature::{build_label, compiled, BuildFlags, Feature, FeatureSet};

#[test]
fn parse_roundtrip_and_aliases() {
    for f in Feature::ALL {
        assert_eq!(f.as_str().parse::<Feature>().unwrap(), f);
    }
    assert_eq!("KV-Store".parse::<Feature>().unwrap(), Feature::Kv);
    assert_eq!("pub/sub".parse::<Feature>().unwrap(), Feature::Pubsub);
    assert!("nope".parse::<Feature>().is_err());
}

#[test]
fn set_insert_remove_dedup() {
    let mut s = FeatureSet::new();
    assert!(s.insert(Feature::Cache));
    assert!(!s.insert(Feature::Cache));
    assert_eq!(s.len(), 1);
    assert!(s.contains(Feature::Cache));
    assert!(s.remove(Feature::Cache));
    assert!(s.is_empty());
}

#[test]
fn uncompiled_detection() {
    let compiled = FeatureSet::from_features(&[Feature::Cache]);
    let active = FeatureSet::from_features(&[Feature::Cache, Feature::Pubsub]);
    assert_eq!(active.first_uncompiled(&compiled), Some(Feature::Pubsub));
    assert_eq!(active.first_uncompiled(&FeatureSet::all()), None);
}

#[test]
fn unknown_product_is_named_in_the_error() {
    let e = Feature::parse("  NoPe ").unwrap_err();
    assert_eq!(
        e.message(),
        "unknown feature 'nope' (expected one of: cache, kv, pubsub, queue, stream)"
    );
}

#[test]
fn names_are_trimmed_of_unicode_white_space() {
    assert_eq!(Feature::parse("\u{2003}Queue\u{a0}\n").unwrap(), Feature::Queue);
    assert!(Feature::parse("qu eue").is_err());
}

#[test]
fn remove_of_an_absent_product_changes_nothing() {
    let mut s = FeatureSet::from_features(&[Feature::Kv, Feature::Kv, Feature::Stream]);
    assert_eq!(s.iter(), vec![Feature::Kv, Feature::Stream]);
    assert!(!s.remove(Feature::Cache));
    assert_eq!(s.display(", "), "kv, stream");
    assert!(s.remove(Feature::Kv));
    assert_eq!(s.iter(), vec![Feature::Stream]);
}

#[test]
fn build_labels() {
    let none = BuildFlags { cache: false, kv: false, pubsub: false, queue: false, stream: false };
    let all = BuildFlags { cache: true, kv: true, pubsub: true, queue: true, stream: true };
    assert_eq!(build_label(&compiled(all)), "Falcon (full)");
    assert_eq!(build_label(&compiled(BuildFlags { kv: true, ..none })), "Falcon KV Store");
    assert_eq!(
        build_label(&compiled(BuildFlags { stream: true, cache: true, ..none })),
        "Falcon (cache, stream)"
    );
    assert_eq!(build_label(&compiled(none)), "Falcon ()");
}

#[test]
fn product_names_and_taglines() {
    assert_eq!(Feature::Stream.product_name(), "Falcon Event Stream");
    assert_eq!(Feature::Pubsub.tagline(), "publish/subscribe topics");
}

#[test]
fn a_text_parses_as_the_product_it_names() {
    assert_eq!(" Pub/Sub ".parse::<Feature>().unwrap(), Feature::Pubsub);
    let e = "Redis".parse::<Feature>().unwrap_err();
    assert!(e.message().contains("'redis'"));
}
