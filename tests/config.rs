use std::path::PathBuf;
use taurium::config::{
    default_accent_color, default_icon_size, default_notifications_enabled, default_sidebar_color,
    filter_valid_services, get_services_path, keep_flagged, AppState, Preferences, Service,
};

fn service(id: &str, url: &str) -> Service {
    Service { id: id.to_string(), name: id.to_string(), url: url.to_string(), icon: String::new() }
}

#[test]
fn preference_defaults() {
    assert_eq!(default_icon_size(), 40);
    assert_eq!(default_sidebar_color(), "#16213e");
    assert_eq!(default_accent_color(), "#e94560");
    assert!(default_notifications_enabled());
    let p = Preferences::default();
    assert_eq!(p.icon_size, 40);
    assert_eq!(p.sidebar_color, "#16213e");
    assert_eq!(p.accent_color, "#e94560");
    assert!(p.notifications_enabled);
}

#[test]
fn app_state_default_has_no_service() {
    assert_eq!(AppState::default().last_active_service, None);
}

#[test]
fn services_path_is_inside_data_dir() {
    let p = get_services_path(&PathBuf::from("/tmp/appdata"));
    assert_eq!(p, PathBuf::from("/tmp/appdata/services.json"));
}

#[test]
fn invalid_urls_are_dropped_in_order() {
    let list = vec![
        service("a", "https://a.example.com"),
        service("b", "not a url"),
        service("c", "https://c.example.com/inbox"),
        service("d", ""),
        service("e", "mailto:someone@example.com"),
    ];
    let kept = filter_valid_services(&list);
    let ids: Vec<&str> = kept.iter().map(|s| s.id.as_str()).collect();
    assert_eq!(ids, vec!["a", "c", "e"]);
    assert_eq!(kept[1], list[2]);
}

#[test]
fn flagged_services_are_kept() {
    let list = vec![service("a", "x"), service("b", "y"), service("c", "z")];
    let kept = keep_flagged(&list, &vec![false, true, true]);
    assert_eq!(kept, vec![service("b", "y"), service("c", "z")]);
    assert!(keep_flagged(&list, &vec![false, false, false]).is_empty());
}
