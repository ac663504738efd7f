use auth_api::app_settings::{new_shared, AppSettings};
use auth_api::community::{cache_is_fresh, CommunityDeed, CommunityDeedsCache};
use auth_api::granger::{new_store, new_store_with, to_vec, GrangerAnimal};
use auth_api::trade_entries::{self, truncate_entries, TradeEntry};
use auth_api::user_layers::UserFeatureProperties;

fn animal(id: &str, name: &str) -> GrangerAnimal {
    GrangerAnimal {
        id: id.to_string(),
        name: name.to_string(),
        descriptors: vec!["aged".to_string()],
        age: Some("aged".to_string()),
        custom_label: None,
        species: Some("horse".to_string()),
        settlement: None,
        caretaker: None,
        condition: None,
        traits: vec!["It has a strong body".to_string()],
        trait_points: Some(25),
        colour: Some("grey".to_string()),
        updated_at: "10:00:00".to_string(),
    }
}

fn entry(message: &str) -> TradeEntry {
    TradeEntry {
        category: "WTS".to_string(),
        timestamp: "10:00:00".to_string(),
        message: message.to_string(),
    }
}

#[test]
fn granger_insert_replaces_by_id() {
    let mut store = new_store();
    store.insert(animal("Bella", "Bella"));
    store.insert(animal("Star", "Star"));
    store.insert(animal("Bella", "Bella the second"));
    let all = to_vec(&store);
    assert_eq!(all.len(), 2);
    assert_eq!(all[0].id, "Bella");
    assert_eq!(all[0].name, "Bella the second");
    assert_eq!(all[1].id, "Star");
}

#[test]
fn granger_store_can_be_seeded_from_loaded_records() {
    let store = new_store_with(vec![
        animal("Bella", "Bella"),
        animal("Star", "Star"),
        animal("Bella", "Bella again"),
    ]);
    let all = to_vec(&store);
    assert_eq!(all.len(), 2);
    assert_eq!(all[0].name, "Bella again");
}

#[test]
fn granger_store_reads_out_in_ascending_id_order() {
    let mut store = new_store();
    store.insert(animal("Star", "Star"));
    store.insert(animal("Bella", "Bella"));
    store.insert(animal("Apple", "Apple"));
    let all = to_vec(&store);
    let ids: Vec<&str> = all.iter().map(|a| a.id.as_str()).collect();
    assert_eq!(ids, vec!["Apple", "Bella", "Star"]);
}

#[test]
fn granger_clone_keeps_every_field() {
    let a = animal("Bella", "Bella");
    let b = a.clone();
    assert_eq!(b.id, a.id);
    assert_eq!(b.traits, a.traits);
    assert_eq!(b.trait_points, a.trait_points);
    assert_eq!(b.colour, a.colour);
}

#[test]
fn trade_entries_truncate_from_the_front() {
    let mut entries = trade_entries::new_store();
    assert_eq!(entries.len(), 0);
    for i in 0..5 {
        entries.push(entry(&format!("m{}", i)));
    }
    truncate_entries(&mut entries, 3);
    assert_eq!(entries.len(), 3);
    assert_eq!(entries[0].message, "m2");
    assert_eq!(entries[2].message, "m4");
    truncate_entries(&mut entries, 3);
    assert_eq!(entries.len(), 3);
    truncate_entries(&mut entries, 10);
    assert_eq!(entries.len(), 3);
}

#[test]
fn settings_default_names_the_log_directory() {
    let settings = AppSettings::default();
    assert_eq!(settings.watch_dir, "C:\\Users\\johnw\\wurm\\players\\jackjones\\logs");
    let shared = new_shared(settings.clone());
    assert_eq!(shared.current.watch_dir, settings.watch_dir);
}

#[test]
fn caches_expire_after_one_day() {
    let fetched_at = 1_700_000_000i64;
    assert!(cache_is_fresh(fetched_at, fetched_at));
    assert!(cache_is_fresh(fetched_at, fetched_at + 86_400));
    assert!(!cache_is_fresh(fetched_at, fetched_at + 86_401));
    assert!(cache_is_fresh(fetched_at, fetched_at - 50));
    let cache = CommunityDeedsCache {
        deeds: vec![CommunityDeed {
            name: "Harbor".to_string(),
            coords: [120, -44],
            deed_type: "citadel".to_string(),
            extra: None,
        }],
        fetched_at,
    };
    assert!(cache.is_fresh(fetched_at + 3600));
    assert!(!cache.is_fresh(fetched_at + 90_000));
}

#[test]
fn user_feature_properties_carry_their_fields() {
    let props = UserFeatureProperties {
        name: "canal entrance".to_string(),
        description: Some("south side".to_string()),
        icon: None,
    };
    assert_eq!(props.name, "canal entrance");
    assert_eq!(props.description.as_deref(), Some("south side"));
    assert!(props.icon.is_none());
}
