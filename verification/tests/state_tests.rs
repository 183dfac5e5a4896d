use installer::package::{Package, PackageCategory};
use installer::state::{BackupInfo, InstallState, StateError};

#[test]
fn default_state_is_empty() {
    let st = InstallState::default();
    assert!(st.installed_packages.is_empty());
    assert!(!st.deployed_configs);
    assert!(st.enabled_services.is_empty());
    assert!(st.backups.is_empty());
}

#[test]
fn add_package_is_idempotent_and_stamps() {
    let mut st = InstallState::default_at(0);
    st.add_package_at(String::from("hyprland"), 10);
    assert_eq!(st.installed_packages, vec![String::from("hyprland")]);
    assert_eq!(st.last_update, 10);
    st.add_package_at(String::from("hyprland"), 20);
    assert_eq!(st.installed_packages, vec![String::from("hyprland")]);
    assert_eq!(st.last_update, 20);
    st.add_package_at(String::from("waybar"), 30);
    assert_eq!(
        st.installed_packages,
        vec![String::from("hyprland"), String::from("waybar")]
    );
    assert_eq!(st.last_update, 30);
}

#[test]
fn add_service_is_idempotent_and_stamps() {
    let mut st = InstallState::default_at(0);
    st.add_service_at(String::from("NetworkManager"), 5);
    st.add_service_at(String::from("NetworkManager"), 7);
    assert_eq!(st.enabled_services, vec![String::from("NetworkManager")]);
    assert_eq!(st.last_update, 7);
}

#[test]
fn add_backup_appends_without_dedup() {
    let mut st = InstallState::default_at(0);
    let b = BackupInfo {
        path: String::from("/home/user/.config"),
        timestamp: 99,
        size_bytes: 4096,
    };
    st.add_backup_at(
        BackupInfo {
            path: b.path.clone(),
            timestamp: b.timestamp,
            size_bytes: b.size_bytes,
        },
        100,
    );
    st.add_backup_at(b, 101);
    assert_eq!(st.backups.len(), 2);
    assert_eq!(st.backups[0].path, "/home/user/.config");
    assert_eq!(st.backups[1].size_bytes, 4096);
    assert_eq!(st.last_update, 101);
}

#[test]
fn load_from_absent_file_yields_default() {
    let st = InstallState::load_from(None).unwrap();
    assert!(st.installed_packages.is_empty());
    assert!(!st.deployed_configs);
    assert!(st.enabled_services.is_empty());
    assert!(st.backups.is_empty());
}

#[test]
fn to_json_exact_text() {
    let mut st = InstallState::default_at(42);
    st.add_package_at(String::from("hyprland"), 42);
    let expected = "{\n  \"installed_packages\": [\"hyprland\"],\n  \"deployed_configs\": false,\n  \"enabled_services\": [],\n  \"last_update\": 42,\n  \"backups\": []\n}";
    assert_eq!(st.to_json(), expected);
}

#[test]
fn round_trip_full_record() {
    let mut st = InstallState::default_at(-3);
    st.add_package_at(String::from("hyprland"), 1);
    st.add_package_at(String::from("way\"bar\\"), 2);
    st.add_service_at(String::from("tailscaled"), 3);
    st.deployed_configs = true;
    st.add_backup_at(
        BackupInfo {
            path: String::from("/home/u/.config/waybar"),
            timestamp: -7,
            size_bytes: u64::MAX,
        },
        i64::MIN,
    );
    let text = st.to_json();
    let back = InstallState::from_json(&text).unwrap();
    assert_eq!(back.installed_packages, st.installed_packages);
    assert_eq!(back.deployed_configs, st.deployed_configs);
    assert_eq!(back.enabled_services, st.enabled_services);
    assert_eq!(back.last_update, st.last_update);
    assert_eq!(back.backups.len(), 1);
    assert_eq!(back.backups[0].path, st.backups[0].path);
    assert_eq!(back.backups[0].timestamp, st.backups[0].timestamp);
    assert_eq!(back.backups[0].size_bytes, st.backups[0].size_bytes);
}

#[test]
fn round_trip_empty_record() {
    let st = InstallState::default_at(0);
    let back = InstallState::from_json(&st.to_json()).unwrap();
    assert!(back.installed_packages.is_empty());
    assert!(!back.deployed_configs);
    assert!(back.enabled_services.is_empty());
    assert!(back.backups.is_empty());
    assert_eq!(back.last_update, 0);
}

#[test]
fn load_from_parses_written_document() {
    let text = "{\n  \"installed_packages\": [\"a\", \"b\"],\n  \"deployed_configs\": true,\n  \"enabled_services\": [\"svc\"],\n  \"last_update\": -12,\n  \"backups\": [{\"path\": \"p\", \"timestamp\": 3, \"size_bytes\": 9}]\n}";
    let st = InstallState::load_from(Some(text)).unwrap();
    assert_eq!(
        st.installed_packages,
        vec![String::from("a"), String::from("b")]
    );
    assert!(st.deployed_configs);
    assert_eq!(st.enabled_services, vec![String::from("svc")]);
    assert_eq!(st.last_update, -12);
    assert_eq!(st.backups.len(), 1);
    assert_eq!(st.backups[0].path, "p");
    assert_eq!(st.backups[0].timestamp, 3);
    assert_eq!(st.backups[0].size_bytes, 9);
}

#[test]
fn malformed_documents_are_corrupt() {
    assert_eq!(
        InstallState::from_json("").unwrap_err(),
        StateError::CorruptState
    );
    assert_eq!(
        InstallState::from_json("{}").unwrap_err(),
        StateError::CorruptState
    );
    let truncated = "{\n  \"installed_packages\": [\"a\"";
    assert_eq!(
        InstallState::from_json(truncated).unwrap_err(),
        StateError::CorruptState
    );
    let trailing = "{\n  \"installed_packages\": [],\n  \"deployed_configs\": false,\n  \"enabled_services\": [],\n  \"last_update\": 0,\n  \"backups\": []\n} ";
    assert_eq!(
        InstallState::from_json(trailing).unwrap_err(),
        StateError::CorruptState
    );
}

#[test]
fn package_category_labels() {
    assert_eq!(PackageCategory::Core.as_str(), "Core Packages");
    assert_eq!(PackageCategory::Themes.as_str(), "Themes & Icons");
    assert_eq!(PackageCategory::Desktop.as_str(), "Desktop Applications");
    assert_eq!(PackageCategory::Development.as_str(), "Development Tools");
    assert_eq!(PackageCategory::Optional.as_str(), "Optional Programs");
}

#[test]
fn package_new_fields() {
    let p = Package::new(
        String::from("hyprland"),
        String::from("compositor"),
        PackageCategory::Core,
        true,
    );
    assert_eq!(p.name, "hyprland");
    assert_eq!(p.description, "compositor");
    assert_eq!(p.category, PackageCategory::Core);
    assert!(p.required);
    assert!(p.size_mb.is_none());
}
