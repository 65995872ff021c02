use taurium::config::Service;
use taurium::menu::{ContextMenuTarget, MenuItem};
use taurium::webviews::{HostAction, ViewError, WebviewState, HIBERNATION_SECS};

fn service(id: &str, url: &str) -> Service {
    Service {
        id: id.to_string(),
        name: format!("{} app", id),
        url: url.to_string(),
        icon: String::new(),
    }
}

fn three() -> WebviewState {
    WebviewState::startup(vec![
        service("mail", "https://mail.example.com"),
        service("chat", "https://chat.example.com"),
        service("docs", "https://docs.example.com"),
    ])
    .unwrap()
}

fn s(x: &str) -> String {
    x.to_string()
}

fn hide_all() -> Vec<HostAction> {
    vec![
        HostAction::HideView(s("mail")),
        HostAction::HideView(s("chat")),
        HostAction::HideView(s("docs")),
        HostAction::HideSettings,
    ]
}

fn badge(st: &WebviewState, id: &str) -> Option<u32> {
    st.get_badge_counts().into_iter().find(|(k, _)| k == id).map(|(_, v)| v)
}

#[test]
fn startup_creates_one_blank_view_per_service() {
    let st = three();
    assert_eq!(st.created_ids(), vec![s("mail"), s("chat"), s("docs")]);
    assert_eq!(st.active_id(), None);
    assert!(st.get_badge_counts().is_empty());
    assert_eq!(st.get_services().len(), 3);
}

#[test]
fn startup_rejects_duplicate_ids() {
    let r = WebviewState::startup(vec![
        service("a", "https://a.example.com"),
        service("b", "https://b.example.com"),
        service("a", "https://other.example.com"),
    ]);
    assert_eq!(r.err(), Some(ViewError::DuplicateService(s("a"))));
}

#[test]
fn first_switch_navigates_then_shows() {
    let mut st = three();
    let mut acts = Vec::new();
    assert_eq!(st.switch_to("chat", 100, &mut acts), Ok(()));
    let mut want = hide_all();
    want.push(HostAction::Navigate(s("chat"), s("https://chat.example.com")));
    want.push(HostAction::ShowView(s("chat")));
    assert_eq!(acts, want);
    assert_eq!(st.active_id(), Some(s("chat")));
}

#[test]
fn second_switch_does_not_navigate_again() {
    let mut st = three();
    let mut acts = Vec::new();
    st.switch_to("chat", 100, &mut acts).unwrap();
    st.switch_to("mail", 110, &mut acts).unwrap();
    let mut again = Vec::new();
    st.switch_to("chat", 120, &mut again).unwrap();
    let mut want = hide_all();
    want.push(HostAction::ShowView(s("chat")));
    assert_eq!(again, want);
}

#[test]
fn switch_to_unknown_id_is_not_found() {
    let mut st = three();
    let mut acts = Vec::new();
    assert_eq!(st.switch_to("nope", 1, &mut acts), Err(ViewError::NotFound(s("nope"))));
    assert_eq!(acts, hide_all());
    assert_eq!(st.active_id(), None);
}

#[test]
fn every_switch_leaves_at_most_one_view_visible() {
    let mut st = three();
    let mut visible: Vec<String> = Vec::new();
    let targets = ["mail", "chat", "ghost", "docs", "mail", "settings"];
    for (t, id) in targets.iter().enumerate() {
        let mut acts = Vec::new();
        if *id == "settings" {
            st.show_settings(&mut acts);
        } else {
            let _ = st.switch_to(id, t as u64, &mut acts);
        }
        for a in acts {
            match a {
                HostAction::HideView(v) => visible.retain(|x| *x != v),
                HostAction::HideSettings => visible.retain(|x| x != "settings"),
                HostAction::ShowView(v) => visible.push(v),
                HostAction::ShowSettings => visible.push(s("settings")),
                _ => {}
            }
        }
        assert!(visible.len() <= 1, "after {}: {:?}", id, visible);
        if *id == "ghost" {
            assert!(visible.is_empty());
        }
    }
    assert_eq!(visible, vec![s("settings")]);
}

#[test]
fn show_settings_hides_everything_and_clears_active() {
    let mut st = three();
    let mut acts = Vec::new();
    st.switch_to("docs", 5, &mut acts).unwrap();
    let mut acts = Vec::new();
    st.show_settings(&mut acts);
    let mut want = hide_all();
    want.push(HostAction::ShowSettings);
    assert_eq!(acts, want);
    assert_eq!(st.active_id(), None);
}

#[test]
fn reload_renavigates_existing_view() {
    let st = three();
    let mut acts = Vec::new();
    assert_eq!(st.reload_service("docs", &mut acts), Ok(()));
    assert_eq!(acts, vec![HostAction::Navigate(s("docs"), s("https://docs.example.com"))]);
    let mut none = Vec::new();
    assert_eq!(st.reload_service("zzz", &mut none), Err(ViewError::NotFound(s("zzz"))));
    assert!(none.is_empty());
}

#[test]
fn service_url_lookup() {
    let st = three();
    assert_eq!(st.get_service_url("mail"), Some(s("https://mail.example.com")));
    assert_eq!(st.get_service_url("other"), None);
}

#[test]
fn notification_delta_scenario() {
    let mut st = three();
    let mut acts = Vec::new();
    st.handle_title_change("mail", "Mail", "Inbox (3)", true, &mut acts);
    assert_eq!(
        acts,
        vec![
            HostAction::Notify(s("Mail"), s("3 notifications from Mail")),
            HostAction::UpdateBadges(vec![(s("mail"), 3)]),
        ]
    );
    let mut acts = Vec::new();
    st.handle_title_change("mail", "Mail", "Inbox (3)", true, &mut acts);
    assert_eq!(acts, vec![HostAction::UpdateBadges(vec![(s("mail"), 3)])]);
    let mut acts = Vec::new();
    st.handle_title_change("mail", "Mail", "Inbox (5)", true, &mut acts);
    assert_eq!(
        acts,
        vec![
            HostAction::Notify(s("Mail"), s("2 new notifications from Mail")),
            HostAction::UpdateBadges(vec![(s("mail"), 5)]),
        ]
    );
    let mut acts = Vec::new();
    st.handle_title_change("mail", "Mail", "Inbox", true, &mut acts);
    assert_eq!(acts, vec![HostAction::UpdateBadges(vec![])]);
    assert_eq!(badge(&st, "mail"), None);
}

#[test]
fn single_new_notification_and_first_one() {
    let mut st = three();
    let mut acts = Vec::new();
    st.handle_title_change("chat", "Chat", "(1) Chat", true, &mut acts);
    assert_eq!(acts[0], HostAction::Notify(s("Chat"), s("1 notification from Chat")));
    let mut acts = Vec::new();
    st.handle_title_change("chat", "Chat", "(2) Chat", true, &mut acts);
    assert_eq!(acts[0], HostAction::Notify(s("Chat"), s("New notification from Chat")));
}

#[test]
fn notifications_disabled_still_update_badges() {
    let mut st = three();
    let mut acts = Vec::new();
    st.handle_title_change("docs", "Docs", "[4] Docs", false, &mut acts);
    assert_eq!(acts, vec![HostAction::UpdateBadges(vec![(s("docs"), 4)])]);
    assert_eq!(badge(&st, "docs"), Some(4));
}

#[test]
fn placeholder_titles_are_ignored() {
    let mut st = three();
    let mut acts = Vec::new();
    st.handle_title_change("mail", "Mail", "(4)", true, &mut acts);
    let mut acts = Vec::new();
    st.handle_title_change("mail", "Mail", "", true, &mut acts);
    st.handle_title_change("mail", "Mail", "about:blank", true, &mut acts);
    st.handle_title_change("ghost", "Ghost", "(9)", true, &mut acts);
    assert!(acts.is_empty());
    assert_eq!(badge(&st, "mail"), Some(4));
    assert_eq!(badge(&st, "ghost"), None);
}

#[test]
fn badge_list_keeps_view_order() {
    let mut st = three();
    let mut acts = Vec::new();
    st.handle_title_change("docs", "Docs", "(2)", false, &mut acts);
    st.handle_title_change("mail", "Mail", "(7)", false, &mut acts);
    assert_eq!(st.get_badge_counts(), vec![(s("mail"), 7), (s("docs"), 2)]);
}

#[test]
fn removing_services_forgets_their_views() {
    let mut st = three();
    let mut acts = Vec::new();
    st.switch_to("chat", 10, &mut acts).unwrap();
    st.handle_title_change("chat", "Chat", "(6)", true, &mut acts);
    st.handle_title_change("mail", "Mail", "(1)", true, &mut acts);
    let mut acts = Vec::new();
    let added = st.apply_service_changes(vec![service("mail", "https://mail.example.com")], &mut acts);
    assert!(!added);
    assert_eq!(
        acts,
        vec![
            HostAction::Blank(s("chat")),
            HostAction::HideView(s("chat")),
            HostAction::Blank(s("docs")),
            HostAction::HideView(s("docs")),
            HostAction::RefreshSidebar,
        ]
    );
    assert_eq!(st.created_ids(), vec![s("mail")]);
    assert_eq!(st.active_id(), None);
    assert_eq!(st.get_badge_counts(), vec![(s("mail"), 1)]);
    let mut acts = Vec::new();
    assert_eq!(st.switch_to("chat", 11, &mut acts), Err(ViewError::NotFound(s("chat"))));
}

#[test]
fn added_service_requires_restart() {
    let mut st = three();
    let mut acts = Vec::new();
    let list = vec![
        service("docs", "https://docs.example.com"),
        service("news", "https://news.example.com"),
        service("mail", "https://mail.example.com"),
        service("chat", "https://chat.example.com"),
    ];
    assert!(st.apply_service_changes(list, &mut acts));
    assert_eq!(acts, vec![HostAction::RefreshSidebar]);
    let ids: Vec<String> = st.get_services().into_iter().map(|x| x.id).collect();
    assert_eq!(ids, vec![s("docs"), s("news"), s("mail"), s("chat")]);
    let mut acts = Vec::new();
    assert_eq!(st.switch_to("news", 1, &mut acts), Err(ViewError::RequiresRestart(s("news"))));
    let mut acts = Vec::new();
    st.check_hibernation(1000, &mut acts);
    let mut acts = Vec::new();
    assert_eq!(st.switch_to("news", 2000, &mut acts), Err(ViewError::RequiresRestart(s("news"))));
}

#[test]
fn active_service_kept_when_still_listed() {
    let mut st = three();
    let mut acts = Vec::new();
    st.switch_to("docs", 1, &mut acts).unwrap();
    let added = st.apply_service_changes(
        vec![service("docs", "https://docs.example.com/v2"), service("mail", "https://mail.example.com")],
        &mut acts,
    );
    assert!(!added);
    assert_eq!(st.active_id(), Some(s("docs")));
    assert_eq!(st.get_service_url("docs"), Some(s("https://docs.example.com/v2")));
}

#[test]
fn idle_views_are_hibernated_and_reload_on_switch() {
    let mut st = three();
    let mut acts = Vec::new();
    st.switch_to("chat", 100, &mut acts).unwrap();
    st.switch_to("mail", 200, &mut acts).unwrap();
    let mut sweep = Vec::new();
    st.check_hibernation(100 + HIBERNATION_SECS, &mut sweep);
    assert!(sweep.is_empty());
    st.check_hibernation(100 + HIBERNATION_SECS + 1, &mut sweep);
    assert_eq!(sweep, vec![HostAction::Blank(s("chat"))]);
    let mut again = Vec::new();
    st.switch_to("chat", 5000, &mut again).unwrap();
    let mut want = hide_all();
    want.push(HostAction::Navigate(s("chat"), s("https://chat.example.com")));
    want.push(HostAction::ShowView(s("chat")));
    assert_eq!(again, want);
}

#[test]
fn sweeper_never_hibernates_the_active_view() {
    let mut st = three();
    let mut acts = Vec::new();
    st.switch_to("docs", 0, &mut acts).unwrap();
    let mut sweep = Vec::new();
    st.check_hibernation(u64::MAX, &mut sweep);
    assert!(sweep.is_empty());
    let mut again = Vec::new();
    st.switch_to("docs", 10, &mut again).unwrap();
    let mut want = hide_all();
    want.push(HostAction::ShowView(s("docs")));
    assert_eq!(again, want);
}

#[test]
fn never_visited_views_are_not_swept() {
    let mut st = three();
    let mut sweep = Vec::new();
    st.check_hibernation(1_000_000, &mut sweep);
    assert!(sweep.is_empty());
}

#[test]
fn error_messages() {
    assert_eq!(ViewError::NotFound(s("x")).message(), "Service 'x' not found");
    assert_eq!(
        ViewError::RequiresRestart(s("x")).message(),
        "Service 'x' requires a restart to be available"
    );
    assert_eq!(ViewError::DuplicateService(s("x")).message(), "Service 'x' is configured twice");
    assert_eq!(ViewError::HostCallFailed(s("boom")).message(), "boom");
}

#[test]
fn context_menu_actions() {
    let st = three();
    let mut target = ContextMenuTarget::new();
    let mut acts = Vec::new();
    target.menu_action(MenuItem::Reload, &st, &mut acts);
    assert!(acts.is_empty());
    target.set("mail");
    target.menu_action(MenuItem::Reload, &st, &mut acts);
    target.menu_action(MenuItem::OpenInBrowser, &st, &mut acts);
    assert_eq!(
        acts,
        vec![
            HostAction::Navigate(s("mail"), s("https://mail.example.com")),
            HostAction::OpenInBrowser(s("https://mail.example.com")),
        ]
    );
    target.set("gone");
    let mut acts = Vec::new();
    target.menu_action(MenuItem::OpenInBrowser, &st, &mut acts);
    assert!(acts.is_empty());
}

#[test]
fn menu_ids() {
    assert_eq!(MenuItem::from_id("ctx_reload"), Some(MenuItem::Reload));
    assert_eq!(MenuItem::from_id("ctx_open_browser"), Some(MenuItem::OpenInBrowser));
    assert_eq!(MenuItem::from_id("ctx_other"), None);
}
