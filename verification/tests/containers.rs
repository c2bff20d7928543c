use scd::clock::{
    decimal_text, generate_version, timestamp_now, timestamp_of, timestamp_text, version_label,
    zero_padded_text, UtcParts,
};
use scd::config::{
    default_bootstrap_state_file, default_deploy_state_file, default_ecr_tag_mutability,
    default_provider_name, default_sse, default_template_bucket_prefix, default_true,
    default_version_format, BootstrapFile, BootstrapSettings, CatalogFile, CatalogSettings,
    PortfolioSpec, ProductSpec, ProfilesFile, TemplateBucket,
};
use scd::deploy::unique_sorted;
use scd::namemap::NameMap;
use scd::names::{contains_name, name_before, position_of, same_name, split_once};
use scd::state::{
    bootstrap_schema_v1, deploy_schema_v2, BootstrapEnvState, BootstrapState, DeployEnvState,
    DeployProductState, DeployState, ResourceRef,
};
use scd::text::{has_char, join_with, pad_right, signed_decimal_text};

fn names(list: &[&str]) -> Vec<String> {
    list.iter().map(|s| s.to_string()).collect()
}

#[test]
fn names_are_ordered_as_strings_are() {
    let samples = ["", "a", "A", "ab", "abc", "b", "a b", "é", "z", "日本", "\u{10FFFF}", "a\u{0}"];
    for a in samples {
        for b in samples {
            assert_eq!(name_before(a, b), a < b, "{a:?} {b:?}");
            assert_eq!(same_name(a, b), a == b, "{a:?} {b:?}");
        }
    }
}

#[test]
fn name_lists_are_searched_from_the_front() {
    let list = names(&["b", "a", "b"]);
    assert_eq!(position_of(&list, "b"), Some(0));
    assert_eq!(position_of(&list, "a"), Some(1));
    assert_eq!(position_of(&list, "c"), None);
    assert!(contains_name(&list, "a"));
    assert!(!contains_name(&list, "ab"));
    assert_eq!(unique_sorted(&list), names(&["a", "b"]));
    assert_eq!(unique_sorted(&vec![]), Vec::<String>::new());
}

#[test]
fn texts_split_at_the_first_separator() {
    let pair = |a: &str, b: &str| Some((a.to_string(), b.to_string()));
    assert_eq!(split_once("dep.out", '.'), pair("dep", "out"));
    assert_eq!(split_once("a.b.c", '.'), pair("a", "b.c"));
    assert_eq!(split_once(".x", '.'), pair("", "x"));
    assert_eq!(split_once("x.", '.'), pair("x", ""));
    assert_eq!(split_once(".", '.'), pair("", ""));
    assert_eq!(split_once("é.ü", '.'), pair("é", "ü"));
    assert_eq!(split_once("nodot", '.'), None);
    assert_eq!(split_once("", '.'), None);
    for s in ["dep.out", "a.b.c", ".x", "x.", "nodot", "", "é.ü.ö"] {
        let expected = s.split_once('.').map(|(a, b)| (a.to_string(), b.to_string()));
        assert_eq!(split_once(s, '.'), expected);
    }
}

#[test]
fn map_keeps_its_keys_in_order() {
    let mut m: NameMap<String> = NameMap::new();
    assert!(m.is_empty());
    assert_eq!(m.insert("b".to_string(), "2".to_string()), None);
    assert_eq!(m.insert("a".to_string(), "1".to_string()), None);
    assert_eq!(m.insert("c".to_string(), "3".to_string()), None);
    assert_eq!(m.insert("b".to_string(), "two".to_string()), Some("2".to_string()));
    assert_eq!(m.len(), 3);
    assert!(!m.is_empty());
    assert_eq!(m.keys(), names(&["a", "b", "c"]));
    assert_eq!(m.key_at(0), "a");
    assert_eq!(m.value_at(1), "two");
    assert_eq!(m.get("b"), Some(&"two".to_string()));
    assert_eq!(m.get("d"), None);
    assert_eq!(m.index_of("c"), Some(2));
    assert_eq!(m.index_of("0"), None);
    assert!(m.contains_key("a"));
    assert!(!m.contains_key(""));
    assert_eq!(m.remove("a"), Some("1".to_string()));
    assert_eq!(m.remove("a"), None);
    assert_eq!(m.keys(), names(&["b", "c"]));
    let copy = m.clone();
    assert_eq!(copy, m);
    m.clear();
    assert!(m.is_empty());
    assert_eq!(m, NameMap::default());
    assert_eq!(copy.len(), 2);
}

#[test]
fn maps_with_the_same_entries_are_equal() {
    let mut a: NameMap<String> = NameMap::new();
    let mut b: NameMap<String> = NameMap::new();
    for k in ["x", "m", "a", "q"] {
        a.insert(k.to_string(), k.to_uppercase());
    }
    for k in ["q", "a", "m", "x"] {
        b.insert(k.to_string(), k.to_uppercase());
    }
    assert_eq!(a, b);
    b.insert("m".to_string(), "other".to_string());
    assert_ne!(a, b);
}

#[test]
fn map_finds_every_key_among_many() {
    let mut m: NameMap<String> = NameMap::new();
    for i in 0..200u32 {
        let k = format!("k{}", (i * 37) % 200);
        m.insert(k.clone(), k);
    }
    assert_eq!(m.len(), 200);
    let keys = m.keys();
    let mut sorted = keys.clone();
    sorted.sort();
    assert_eq!(keys, sorted);
    for i in 0..200u32 {
        let k = format!("k{i}");
        assert_eq!(m.get(&k), Some(&k));
    }
    assert_eq!(m.get("k200"), None);
}

#[test]
fn defaults_of_the_configuration() {
    assert_eq!(default_bootstrap_state_file(), ".bootstrap-state.json");
    assert_eq!(default_template_bucket_prefix(), "sc-templates");
    assert!(default_true());
    assert_eq!(default_sse(), "AES256");
    assert_eq!(default_ecr_tag_mutability(), "IMMUTABLE");
    assert_eq!(default_provider_name(), "Platform Team");
    assert_eq!(default_deploy_state_file(), ".deploy-state.json");
    assert_eq!(default_version_format(), "%Y.%m.%d.%H%M%S");
    assert_eq!(BootstrapSettings::default().state_file, ".bootstrap-state.json");
    assert_eq!(
        TemplateBucket::default(),
        TemplateBucket { name_prefix: String::new(), versioning: false, encryption: String::new() }
    );
    assert_eq!(
        CatalogSettings::default(),
        CatalogSettings {
            state_file: ".deploy-state.json".to_string(),
            version_format: "%Y.%m.%d.%H%M%S".to_string(),
        }
    );
    assert!(CatalogFile::default().products.is_empty());
    assert!(ProfilesFile::default().profiles.is_empty());
    assert!(BootstrapFile::default().portfolios.is_empty());
    assert!(BootstrapFile::default().ecr_repositories.is_empty());
    assert_eq!(PortfolioSpec::default().provider_name, "");
    assert_eq!(ProductSpec::default().dependencies, Vec::<String>::new());
}

#[test]
fn defaults_of_the_state() {
    assert_eq!(bootstrap_schema_v1(), "1.0");
    assert_eq!(deploy_schema_v2(), "2.0");
    assert_eq!(BootstrapState::default().schema_version, "1.0");
    assert!(BootstrapState::default().environments.is_empty());
    assert_eq!(DeployState::default().schema_version, "2.0");
    assert!(DeployState::default().environments.is_empty());
    assert!(DeployEnvState::default().products.is_empty());
    let p = DeployProductState::default();
    assert_eq!(p.version, None);
    assert_eq!(p.provisioned_product_id, None);
    assert!(p.outputs.is_empty());
    let b = BootstrapEnvState::default();
    assert_eq!(b.account_id, "");
    assert_eq!(b.template_bucket, None);
    assert_eq!(b.launch_role, None);
    let r = ResourceRef::default();
    assert_eq!(r, ResourceRef { id: None, arn: None, name: None, uri: None });
    assert_eq!(r.clone(), r);
}

#[test]
fn version_label_is_made_of_the_calendar_parts() {
    let t = UtcParts { year: 2024, month: 3, day: 7, hour: 9, minute: 5, second: 1 };
    assert_eq!(version_label(&t), "2024.03.07.090501");
    let t = UtcParts { year: 1999, month: 12, day: 31, hour: 23, minute: 59, second: 59 };
    assert_eq!(version_label(&t), "1999.12.31.235959");
    let t = UtcParts { year: 33, month: 1, day: 1, hour: 0, minute: 0, second: 0 };
    assert_eq!(version_label(&t), "0033.01.01.000000");
    let t = UtcParts { year: -5, month: 1, day: 1, hour: 0, minute: 0, second: 0 };
    assert_eq!(version_label(&t), format!("{:04}.01.01.000000", -5));
    let t = UtcParts { year: 12345, month: 10, day: 20, hour: 1, minute: 2, second: 3 };
    assert_eq!(version_label(&t), "12345.10.20.010203");
}

#[test]
fn version_labels_sort_as_the_points_in_time_do() {
    let early = UtcParts { year: 2024, month: 3, day: 7, hour: 9, minute: 5, second: 1 };
    let later = UtcParts { year: 2024, month: 3, day: 7, hour: 10, minute: 0, second: 0 };
    let next_year = UtcParts { year: 2025, month: 1, day: 1, hour: 0, minute: 0, second: 0 };
    assert!(version_label(&early) < version_label(&later));
    assert!(version_label(&later) < version_label(&next_year));
}

#[test]
fn generated_version_has_the_shape_of_a_label() {
    let v = generate_version();
    assert_eq!(v.len(), 17);
    for (i, c) in v.chars().enumerate() {
        if i == 4 || i == 7 || i == 10 {
            assert_eq!(c, '.');
        } else {
            assert!(c.is_ascii_digit());
        }
    }
    assert!(v.as_str() >= "2024.01.01.000000");
    let month: u32 = v[5..7].parse().unwrap();
    assert!((1..=12).contains(&month));
}

#[test]
fn time_stamp_is_written_by_the_clock_or_unknown() {
    assert_eq!(timestamp_text(None), "unknown");
    assert_eq!(timestamp_text(Some("2024-03-07T09:05:01Z".to_string())), "2024-03-07T09:05:01Z");
    let now = timestamp_now();
    assert!(now.len() >= 20);
    assert_eq!(&now[4..5], "-");
    assert_eq!(&now[10..11], "T");
    assert!(now.ends_with('Z'));
}

#[test]
fn numbers_are_written_in_decimal() {
    assert_eq!(decimal_text(0), "0");
    assert_eq!(decimal_text(7), "7");
    assert_eq!(decimal_text(10), "10");
    assert_eq!(decimal_text(1234567890), "1234567890");
    assert_eq!(decimal_text(u32::MAX), "4294967295");
    assert_eq!(zero_padded_text(5, 2), "05");
    assert_eq!(zero_padded_text(15, 2), "15");
    assert_eq!(zero_padded_text(255, 2), "255");
    assert_eq!(zero_padded_text(0, 0), "0");
    assert_eq!(zero_padded_text(7, 4), "0007");
    assert_eq!(signed_decimal_text(0), "0");
    assert_eq!(signed_decimal_text(-1), "-1");
    assert_eq!(signed_decimal_text(i32::MAX), "2147483647");
    assert_eq!(signed_decimal_text(i32::MIN), "-2147483648");
}

#[test]
fn texts_are_padded_and_joined() {
    assert_eq!(pad_right("ab", 5), "ab   ");
    assert_eq!(pad_right("abcde", 5), "abcde");
    assert_eq!(pad_right("abcdef", 5), "abcdef");
    assert_eq!(pad_right("", 0), "");
    assert_eq!(pad_right("é", 3), format!("{:<3}", "é"));
    assert_eq!(join_with(&names(&["a", "b", "c"]), ","), "a,b,c");
    assert_eq!(join_with(&names(&["a"]), ","), "a");
    assert_eq!(join_with(&names(&["", ""]), ", "), ", ");
    assert_eq!(join_with(&vec![], ","), "");
    assert!(has_char("a b", ' '));
    assert!(!has_char("ab", ' '));
    assert!(!has_char("", ' '));
}

#[test]
fn time_stamp_of_a_point_in_time_is_its_notation() {
    let t = UtcParts { year: 2024, month: 3, day: 7, hour: 9, minute: 5, second: 1 };
    assert_eq!(timestamp_of(&t, 0), "2024-03-07T09:05:01Z");
    assert_eq!(timestamp_of(&t, 500_000_000), "2024-03-07T09:05:01.5Z");
    assert_eq!(timestamp_of(&t, 123_456_789), "2024-03-07T09:05:01.123456789Z");
    assert_eq!(timestamp_of(&t, 1_000), "2024-03-07T09:05:01.000001Z");
    let leap = UtcParts { year: 2024, month: 2, day: 29, hour: 23, minute: 59, second: 59 };
    assert_eq!(timestamp_of(&leap, 0), "2024-02-29T23:59:59Z");
    let first = UtcParts { year: 0, month: 1, day: 1, hour: 0, minute: 0, second: 0 };
    assert_eq!(timestamp_of(&first, 0), "0000-01-01T00:00:00Z");
}

#[test]
fn time_stamp_of_what_cannot_be_written_is_unknown() {
    let t = UtcParts { year: 2024, month: 3, day: 7, hour: 9, minute: 5, second: 1 };
    assert_eq!(timestamp_of(&t, 1_000_000_000), "unknown");
    for bad in [
        UtcParts { month: 0, ..t },
        UtcParts { month: 13, ..t },
        UtcParts { day: 0, ..t },
        UtcParts { day: 32, ..t },
        UtcParts { month: 2, day: 30, ..t },
        UtcParts { year: 2023, month: 2, day: 29, ..t },
        UtcParts { hour: 24, ..t },
        UtcParts { minute: 60, ..t },
        UtcParts { second: 60, ..t },
        UtcParts { year: -1, ..t },
        UtcParts { year: 10_000, ..t },
        UtcParts { year: i32::MIN, ..t },
    ] {
        assert_eq!(timestamp_of(&bad, 0), "unknown", "{bad:?}");
    }
}

#[test]
fn time_stamp_of_now_is_a_point_of_this_age() {
    let now = timestamp_now();
    assert_ne!(now, "unknown");
    let year: i32 = now[0..4].parse().unwrap();
    assert!((2024..10_000).contains(&year));
    let month: u8 = now[5..7].parse().unwrap();
    assert!((1..=12).contains(&month));
    // The stamp and the version label are read from one clock.
    let label = generate_version();
    assert!(label[0..4] >= now[0..4]);
}
