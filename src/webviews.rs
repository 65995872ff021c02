use vstd::prelude::*;

use crate::badge::{badge_of, extract_badge_count, notification_body, notification_text, opt_view};
use crate::config::Service;

verus! {

/// Idle time, in seconds, after which a hidden loaded view is unloaded.
pub const HIBERNATION_SECS: u64 = 600;

/// Lifecycle record of one created view, keyed by its service id. A badge
/// of zero means that no badge is shown.
#[derive(Debug, PartialEq, Eq)]
pub struct ViewRecord {
    pub id: String,
    pub navigated: bool,
    pub last_activity: Option<u64>,
    pub badge: u32,
}

impl Clone for ViewRecord {
    fn clone(&self) -> (r: Self)
        ensures
            r == *self,
    {
        ViewRecord {
            id: self.id.clone(),
            navigated: self.navigated,
            last_activity: self.last_activity,
            badge: self.badge,
        }
    }
}

/// A command for the rendering host and the notifier.
#[derive(Debug, PartialEq, Eq)]
pub enum HostAction {
    /// Hide the view of this service.
    HideView(String),
    /// Hide the settings surface.
    HideSettings,
    /// Show the view of this service.
    ShowView(String),
    /// Show the settings surface.
    ShowSettings,
    /// Point the view of this service (first field) at a URL (second field).
    Navigate(String, String),
    /// Return the view of this service to the blank placeholder page.
    Blank(String),
    /// Ask the sidebar to reload the service list.
    RefreshSidebar,
    /// Push the badge of every service that has one to the sidebar.
    UpdateBadges(Vec<(String, u32)>),
    /// Show a system notification with a title and a body.
    Notify(String, String),
    /// Open a URL in the system browser.
    OpenInBrowser(String),
}

/// What a [`HostAction`] asks for, with its texts as character sequences.
pub enum HostActionView {
    HideView(Seq<char>),
    HideSettings,
    ShowView(Seq<char>),
    ShowSettings,
    Navigate(Seq<char>, Seq<char>),
    Blank(Seq<char>),
    RefreshSidebar,
    UpdateBadges(Seq<(Seq<char>, u32)>),
    Notify(Seq<char>, Seq<char>),
    OpenInBrowser(Seq<char>),
}

pub open spec fn entries_view(v: Seq<(String, u32)>) -> Seq<(Seq<char>, u32)> {
    v.map_values(|p: (String, u32)| (p.0@, p.1))
}

impl View for HostAction {
    type V = HostActionView;

    open spec fn view(&self) -> HostActionView {
        match self {
            HostAction::HideView(id) => HostActionView::HideView(id@),
            HostAction::HideSettings => HostActionView::HideSettings,
            HostAction::ShowView(id) => HostActionView::ShowView(id@),
            HostAction::ShowSettings => HostActionView::ShowSettings,
            HostAction::Navigate(id, url) => HostActionView::Navigate(id@, url@),
            HostAction::Blank(id) => HostActionView::Blank(id@),
            HostAction::RefreshSidebar => HostActionView::RefreshSidebar,
            HostAction::UpdateBadges(v) => HostActionView::UpdateBadges(entries_view(v@)),
            HostAction::Notify(t, b) => HostActionView::Notify(t@, b@),
            HostAction::OpenInBrowser(url) => HostActionView::OpenInBrowser(url@),
        }
    }
}

pub open spec fn texts(v: Seq<String>) -> Seq<Seq<char>> {
    v.map_values(|x: String| x@)
}

pub open spec fn view_ids(views: Seq<ViewRecord>) -> Seq<Seq<char>> {
    views.map_values(|r: ViewRecord| r.id@)
}

pub open spec fn plan_view(v: Seq<HostAction>) -> Seq<HostActionView> {
    v.map_values(|a: HostAction| a@)
}

/// Failures reported to the caller; none of them is fatal.
#[derive(Debug, PartialEq, Eq)]
pub enum ViewError {
    /// No view exists for this id and no service has it.
    NotFound(String),
    /// The service exists but was added after startup, so it has no view yet.
    RequiresRestart(String),
    /// Two configured services share this id.
    DuplicateService(String),
    /// A show, hide, navigate or resize call of the host failed.
    HostCallFailed(String),
}

pub enum ViewErrorView {
    NotFound(Seq<char>),
    RequiresRestart(Seq<char>),
    DuplicateService(Seq<char>),
    HostCallFailed(Seq<char>),
}

impl View for ViewError {
    type V = ViewErrorView;

    open spec fn view(&self) -> ViewErrorView {
        match self {
            ViewError::NotFound(s) => ViewErrorView::NotFound(s@),
            ViewError::RequiresRestart(s) => ViewErrorView::RequiresRestart(s@),
            ViewError::DuplicateService(s) => ViewErrorView::DuplicateService(s@),
            ViewError::HostCallFailed(s) => ViewErrorView::HostCallFailed(s@),
        }
    }
}

pub open spec fn result_view(r: Result<(), ViewError>) -> Result<(), ViewErrorView> {
    match r {
        Ok(()) => Ok(()),
        Err(e) => Err(e@),
    }
}

pub open spec fn error_message(e: ViewErrorView) -> Seq<char> {
    match e {
        ViewErrorView::NotFound(id) => "Service '"@ + id + "' not found"@,
        ViewErrorView::RequiresRestart(id) => "Service '"@ + id
            + "' requires a restart to be available"@,
        ViewErrorView::DuplicateService(id) => "Service '"@ + id + "' is configured twice"@,
        ViewErrorView::HostCallFailed(msg) => msg,
    }
}

impl ViewError {
    /// The message shown to the user.
    pub fn message(&self) -> (r: String)
        ensures
            r@ == error_message(self@),
    {
        match self {
            ViewError::NotFound(id) => {
                let mut s = String::from_str("Service '");
                s.append(id.as_str());
                s.append("' not found");
                s
            },
            ViewError::RequiresRestart(id) => {
                let mut s = String::from_str("Service '");
                s.append(id.as_str());
                s.append("' requires a restart to be available");
                s
            },
            ViewError::DuplicateService(id) => {
                let mut s = String::from_str("Service '");
                s.append(id.as_str());
                s.append("' is configured twice");
                s
            },
            ViewError::HostCallFailed(msg) => msg.clone(),
        }
    }
}

/// Abstract state of a session: the configured services in display order,
/// the created views in creation order, and the id of the visible service
/// view (none while settings or nothing is shown).
pub struct SessionView {
    pub services: Seq<Service>,
    pub views: Seq<ViewRecord>,
    pub active: Option<Seq<char>>,
}

pub open spec fn has_view(views: Seq<ViewRecord>, id: Seq<char>) -> bool {
    exists|i: int| 0 <= i < views.len() && (#[trigger] views[i]).id@ == id
}

pub open spec fn has_service(services: Seq<Service>, id: Seq<char>) -> bool {
    exists|k: int| 0 <= k < services.len() && (#[trigger] services[k]).id@ == id
}

pub open spec fn unique_ids(views: Seq<ViewRecord>) -> bool {
    forall|i: int, j: int|
        0 <= i < views.len() && 0 <= j < views.len() && i != j ==> (#[trigger] views[i]).id@
            != (#[trigger] views[j]).id@
}

/// Session invariants: one view per id, every view belongs to a configured
/// service, and the active id names a view.
pub open spec fn wf(s: SessionView) -> bool {
    &&& unique_ids(s.views)
    &&& forall|i: int| 0 <= i < s.views.len() ==> has_service(s.services, (#[trigger] s.views[i]).id@)
    &&& (s.active matches Some(a) ==> has_view(s.views, a))
}

/// Position of the record of `id` (meaningful when it exists).
pub open spec fn view_index(views: Seq<ViewRecord>, id: Seq<char>) -> int {
    choose|i: int| 0 <= i < views.len() && (#[trigger] views[i]).id@ == id
}

/// URL of the first service with this id.
pub open spec fn service_url(services: Seq<Service>, id: Seq<char>) -> Option<Seq<char>>
    decreases services.len(),
{
    if services.len() == 0 {
        None
    } else if services[0].id@ == id {
        Some(services[0].url@)
    } else {
        service_url(services.skip(1), id)
    }
}

pub proof fn lemma_service_url_some(services: Seq<Service>, id: Seq<char>)
    ensures
        service_url(services, id) is Some <==> has_service(services, id),
    decreases services.len(),
{
    if services.len() > 0 {
        lemma_service_url_some(services.skip(1), id);
        if has_service(services, id) && services[0].id@ != id {
            let k = choose|k: int| 0 <= k < services.len() && (#[trigger] services[k]).id@ == id;
            assert(services.skip(1)[k - 1] == services[k]);
        }
        if has_service(services.skip(1), id) {
            let k = choose|k: int|
                0 <= k < services.len() - 1 && (#[trigger] services.skip(1)[k]).id@ == id;
            assert(services.skip(1)[k] == services[k + 1]);
        }
    }
}

pub open spec fn fresh_record(id: String) -> ViewRecord {
    ViewRecord { id, navigated: false, last_activity: None, badge: 0 }
}

pub open spec fn startup_views(services: Seq<Service>) -> Seq<ViewRecord> {
    services.map_values(|s: Service| fresh_record(s.id))
}

pub open spec fn distinct_service_ids(services: Seq<Service>) -> bool {
    forall|i: int, j: int|
        0 <= i < services.len() && 0 <= j < services.len() && i != j ==> (#[trigger] services[i]).id@
            != (#[trigger] services[j]).id@
}

pub open spec fn hide_views_plan(views: Seq<ViewRecord>) -> Seq<HostActionView> {
    views.map_values(|r: ViewRecord| HostActionView::HideView(r.id@))
}

/// Hide every created view, then the settings surface.
pub open spec fn hide_all_plan(views: Seq<ViewRecord>) -> Seq<HostActionView> {
    hide_views_plan(views).push(HostActionView::HideSettings)
}

pub proof fn lemma_view_index(views: Seq<ViewRecord>, id: Seq<char>, i: int)
    requires
        unique_ids(views),
        0 <= i < views.len(),
        views[i].id@ == id,
    ensures
        view_index(views, id) == i,
{
    assert(views[i].id@ == id);
    let j = view_index(views, id);
    assert(0 <= j < views.len() && views[j].id@ == id);
}

/// Whether the view of `id` currently shows its real page.
pub open spec fn is_navigated(views: Seq<ViewRecord>, id: Seq<char>) -> bool {
    has_view(views, id) && views[view_index(views, id)].navigated
}

/// The navigation that a first visit (or a visit after hibernation) issues.
pub open spec fn navigate_plan(s: SessionView, id: Seq<char>) -> Seq<HostActionView> {
    if has_view(s.views, id) && !is_navigated(s.views, id) && service_url(s.services, id) is Some {
        seq![HostActionView::Navigate(id, service_url(s.services, id)->0)]
    } else {
        Seq::empty()
    }
}

/// A record after being shown at time `now`.
pub open spec fn visited(r: ViewRecord, now: u64) -> ViewRecord {
    ViewRecord { id: r.id, navigated: true, last_activity: Some(now), badge: r.badge }
}

pub open spec fn switch_result(s: SessionView, id: Seq<char>) -> Result<(), ViewErrorView> {
    if has_view(s.views, id) {
        Ok(())
    } else if has_service(s.services, id) {
        Err(ViewErrorView::RequiresRestart(id))
    } else {
        Err(ViewErrorView::NotFound(id))
    }
}

/// Hide everything; then, if the view exists, load it if needed and show it.
pub open spec fn switch_plan(s: SessionView, id: Seq<char>) -> Seq<HostActionView> {
    if has_view(s.views, id) {
        hide_all_plan(s.views) + navigate_plan(s, id).push(HostActionView::ShowView(id))
    } else {
        hide_all_plan(s.views)
    }
}

pub open spec fn switch_state(s: SessionView, id: Seq<char>, now: u64) -> SessionView {
    if has_view(s.views, id) {
        SessionView {
            services: s.services,
            views: s.views.map_values(|r: ViewRecord| if r.id@ == id { visited(r, now) } else { r }),
            active: Some(id),
        }
    } else {
        s
    }
}

pub open spec fn settings_plan(s: SessionView) -> Seq<HostActionView> {
    hide_all_plan(s.views).push(HostActionView::ShowSettings)
}

pub open spec fn settings_state(s: SessionView) -> SessionView {
    SessionView { services: s.services, views: s.views, active: None }
}

pub open spec fn reload_result(s: SessionView, id: Seq<char>) -> Result<(), ViewErrorView> {
    if has_view(s.views, id) {
        Ok(())
    } else {
        Err(ViewErrorView::NotFound(id))
    }
}

pub open spec fn reload_plan(s: SessionView, id: Seq<char>) -> Seq<HostActionView> {
    if has_view(s.views, id) && service_url(s.services, id) is Some {
        seq![HostActionView::Navigate(id, service_url(s.services, id)->0)]
    } else {
        Seq::empty()
    }
}

/// Badge of every view that shows one, in view order.
pub open spec fn badge_entries(views: Seq<ViewRecord>) -> Seq<(Seq<char>, u32)>
    decreases views.len(),
{
    if views.len() == 0 {
        Seq::empty()
    } else {
        let rest = badge_entries(views.drop_last());
        if views.last().badge > 0 {
            rest.push((views.last().id@, views.last().badge))
        } else {
            rest
        }
    }
}

fn badge_list(views: &Vec<ViewRecord>) -> (r: Vec<(String, u32)>)
    ensures
        entries_view(r@) == badge_entries(views@),
{
    let mut r: Vec<(String, u32)> = Vec::new();
    let mut i: usize = 0;
    while i < views.len()
        invariant
            i <= views.len(),
            entries_view(r@) == badge_entries(views@.take(i as int)),
        decreases views.len() - i,
    {
        proof {
            assert(views@.take(i + 1).drop_last() =~= views@.take(i as int));
        }
        if views[i].badge > 0 {
            let ghost before = r@;
            r.push((views[i].id.clone(), views[i].badge));
            proof {
                assert(entries_view(r@) =~= entries_view(before).push(
                    (views@[i as int].id@, views@[i as int].badge),
                ));
            }
        }
        i = i + 1;
    }
    proof {
        assert(views@.take(i as int) =~= views@);
    }
    r
}

/// The views whose service is still configured, in their order.
pub open spec fn kept_views(views: Seq<ViewRecord>, services: Seq<Service>) -> Seq<ViewRecord>
    decreases views.len(),
{
    if views.len() == 0 {
        Seq::empty()
    } else {
        let rest = kept_views(views.drop_last(), services);
        if has_service(services, views.last().id@) {
            rest.push(views.last())
        } else {
            rest
        }
    }
}

/// Blank and hide each view whose service is gone, in view order.
pub open spec fn removal_plan(views: Seq<ViewRecord>, services: Seq<Service>) -> Seq<HostActionView>
    decreases views.len(),
{
    if views.len() == 0 {
        Seq::empty()
    } else {
        let rest = removal_plan(views.drop_last(), services);
        if has_service(services, views.last().id@) {
            rest
        } else {
            rest + seq![
                HostActionView::Blank(views.last().id@),
                HostActionView::HideView(views.last().id@),
            ]
        }
    }
}

/// Some service of the new list has no view.
pub open spec fn has_additions(views: Seq<ViewRecord>, services: Seq<Service>) -> bool {
    exists|k: int| 0 <= k < services.len() && !has_view(views, (#[trigger] services[k]).id@)
}

pub open spec fn apply_state(s: SessionView, services: Seq<Service>) -> SessionView {
    SessionView {
        services,
        views: kept_views(s.views, services),
        active: match s.active {
            Some(a) => if has_service(services, a) {
                Some(a)
            } else {
                None
            },
            None => None,
        },
    }
}

pub open spec fn apply_plan(s: SessionView, services: Seq<Service>) -> Seq<HostActionView> {
    removal_plan(s.views, services).push(HostActionView::RefreshSidebar)
}

pub proof fn lemma_kept_views(views: Seq<ViewRecord>, services: Seq<Service>)
    ensures
        forall|j: int|
            0 <= j < kept_views(views, services).len() ==> has_service(
                services,
                (#[trigger] kept_views(views, services)[j]).id@,
            ) && has_view(views, kept_views(views, services)[j].id@),
        unique_ids(views) ==> unique_ids(kept_views(views, services)),
        forall|id: Seq<char>|
            #[trigger] has_view(kept_views(views, services), id) <==> has_view(views, id)
                && has_service(services, id),
    decreases views.len(),
{
    if views.len() > 0 {
        let d = views.drop_last();
        let k = kept_views(views, services);
        let kd = kept_views(d, services);
        lemma_kept_views(d, services);
        if has_service(services, views.last().id@) {
            assert(k =~= kd.push(views.last()));
        } else {
            assert(k =~= kd);
        }
        assert forall|j: int| 0 <= j < kd.len() implies has_view(views, (#[trigger] kd[j]).id@) by {
            let i = choose|i: int| 0 <= i < d.len() && (#[trigger] d[i]).id@ == kd[j].id@;
            assert(views[i] == d[i]);
        }
        assert(views[views.len() - 1] == views.last());
        if unique_ids(views) {
            assert(unique_ids(d)) by {
                assert forall|a: int, b: int|
                    0 <= a < d.len() && 0 <= b < d.len() && a != b implies (#[trigger] d[a]).id@
                        != (#[trigger] d[b]).id@ by {
                    assert(d[a] == views[a] && d[b] == views[b]);
                }
            }
            if has_service(services, views.last().id@) {
                assert forall|j: int| 0 <= j < kd.len() implies (#[trigger] kd[j]).id@
                    != views.last().id@ by {
                    let i = choose|i: int| 0 <= i < d.len() && (#[trigger] d[i]).id@ == kd[j].id@;
                    assert(views[i] == d[i]);
                }
            }
        }
        assert forall|id: Seq<char>|
            #[trigger] has_view(k, id) <==> has_view(views, id) && has_service(services, id) by {
            if has_view(views, id) && has_service(services, id) {
                let i = choose|i: int| 0 <= i < views.len() && (#[trigger] views[i]).id@ == id;
                if i < views.len() - 1 {
                    assert(d[i] == views[i]);
                    assert(has_view(d, id));
                    assert(has_view(kd, id));
                    let j = choose|j: int| 0 <= j < kd.len() && (#[trigger] kd[j]).id@ == id;
                    assert(k[j] == kd[j]);
                } else {
                    assert(k[k.len() - 1] == views.last());
                }
            }
            if has_view(k, id) {
                let j = choose|j: int| 0 <= j < k.len() && (#[trigger] k[j]).id@ == id;
                if j < kd.len() {
                    assert(k[j] == kd[j]);
                    assert(has_view(kd, id));
                    let i = choose|i: int| 0 <= i < d.len() && (#[trigger] d[i]).id@ == id;
                    assert(views[i] == d[i]);
                }
            }
        }
    }
}

/// A loaded view that is not the active one and has been idle for longer
/// than the hibernation threshold at time `now`.
pub open spec fn idle(r: ViewRecord, active: Option<Seq<char>>, now: u64) -> bool {
    &&& r.navigated
    &&& active != Some(r.id@)
    &&& r.last_activity is Some
    &&& now as int - r.last_activity->0 as int > HIBERNATION_SECS as int
}

/// A record returned to the placeholder page.
pub open spec fn hibernated(r: ViewRecord) -> ViewRecord {
    ViewRecord { id: r.id, navigated: false, last_activity: None, badge: r.badge }
}

pub open spec fn sweep_state(s: SessionView, now: u64) -> SessionView {
    SessionView {
        services: s.services,
        views: s.views.map_values(
            |r: ViewRecord|
                if idle(r, s.active, now) {
                    hibernated(r)
                } else {
                    r
                },
        ),
        active: s.active,
    }
}

/// Blank every idle view, in view order.
pub open spec fn sweep_plan(views: Seq<ViewRecord>, active: Option<Seq<char>>, now: u64) -> Seq<
    HostActionView,
>
    decreases views.len(),
{
    if views.len() == 0 {
        Seq::empty()
    } else {
        let rest = sweep_plan(views.drop_last(), active, now);
        if idle(views.last(), active, now) {
            rest.push(HostActionView::Blank(views.last().id@))
        } else {
            rest
        }
    }
}

/// Titles shown while a view is still on its placeholder page.
pub open spec fn is_placeholder_title(t: Seq<char>) -> bool {
    t.len() == 0 || t == "about:blank"@
}

pub open spec fn title_applies(s: SessionView, id: Seq<char>, title: Seq<char>) -> bool {
    !is_placeholder_title(title) && has_view(s.views, id)
}

pub open spec fn with_badge(r: ViewRecord, badge: u32) -> ViewRecord {
    ViewRecord { id: r.id, navigated: r.navigated, last_activity: r.last_activity, badge }
}

pub open spec fn title_state(s: SessionView, id: Seq<char>, title: Seq<char>) -> SessionView {
    if title_applies(s, id, title) {
        SessionView {
            services: s.services,
            views: s.views.map_values(
                |r: ViewRecord|
                    if r.id@ == id {
                        with_badge(r, badge_of(title))
                    } else {
                        r
                    },
            ),
            active: s.active,
        }
    } else {
        s
    }
}

/// A notification when enabled and the badge grew, then the badge update
/// for the sidebar.
pub open spec fn title_plan(
    s: SessionView,
    id: Seq<char>,
    name: Seq<char>,
    title: Seq<char>,
    notify: bool,
) -> Seq<HostActionView> {
    if title_applies(s, id, title) {
        let prev = s.views[view_index(s.views, id)].badge;
        let text = notification_text(badge_of(title), prev, name);
        let update = HostActionView::UpdateBadges(badge_entries(title_state(s, id, title).views));
        if notify && text is Some {
            seq![HostActionView::Notify(name, text->0), update]
        } else {
            seq![update]
        }
    } else {
        Seq::empty()
    }
}

fn has_service_id(services: &Vec<Service>, id: &String) -> (r: bool)
    ensures
        r == has_service(services@, id@),
{
    find_service(services, id).is_some()
}

fn find_view(views: &Vec<ViewRecord>, id: &String) -> (r: Option<usize>)
    ensures
        r matches Some(i) ==> i < views.len() && views@[i as int].id@ == id@,
        r is None ==> !has_view(views@, id@),
{
    let mut i: usize = 0;
    while i < views.len()
        invariant
            i <= views.len(),
            forall|j: int| 0 <= j < i ==> (#[trigger] views@[j]).id@ != id@,
        decreases views.len() - i,
    {
        if views[i].id == *id {
            return Some(i);
        }
        i = i + 1;
    }
    None
}

fn find_service(services: &Vec<Service>, id: &String) -> (r: Option<usize>)
    ensures
        r matches Some(k) ==> k < services.len() && services@[k as int].id@ == id@
            && service_url(services@, id@) == Some(services@[k as int].url@),
        r is None ==> !has_service(services@, id@) && service_url(services@, id@) is None,
{
    let mut k: usize = 0;
    proof {
        assert(services@.skip(0) =~= services@);
    }
    while k < services.len()
        invariant
            k <= services.len(),
            forall|j: int| 0 <= j < k ==> (#[trigger] services@[j]).id@ != id@,
            service_url(services@, id@) == service_url(services@.skip(k as int), id@),
        decreases services.len() - k,
    {
        if services[k].id == *id {
            return Some(k);
        }
        proof {
            assert(services@.skip(k as int).skip(1) =~= services@.skip(k + 1));
        }
        k = k + 1;
    }
    proof {
        lemma_service_url_some(services@, id@);
    }
    None
}

/// The session state of all service views. Views are created only by
/// [`WebviewState::startup`]; afterwards the state can show, hide, navigate,
/// hibernate and forget them, never create one.
pub struct WebviewState {
    services: Vec<Service>,
    views: Vec<ViewRecord>,
    active_id: Option<String>,
}

impl View for WebviewState {
    type V = SessionView;

    closed spec fn view(&self) -> SessionView {
        SessionView { services: self.services@, views: self.views@, active: opt_view(self.active_id) }
    }
}

impl WebviewState {
    /// Registers one hidden placeholder view per configured service; fails on
    /// the first id that occurs twice.
    pub fn startup(services: Vec<Service>) -> (r: Result<WebviewState, ViewError>)
        ensures
            r is Ok <==> distinct_service_ids(services@),
            r matches Ok(st) ==> wf(st@) && st@ == (SessionView {
                services: services@,
                views: startup_views(services@),
                active: None,
            }),
            r matches Err(e) ==> e@ matches ViewErrorView::DuplicateService(x) && exists|i: int, j: int|
                0 <= i < j < services.len() && (#[trigger] services@[i]).id@ == x
                    && (#[trigger] services@[j]).id@ == x,
    {
        let mut views: Vec<ViewRecord> = Vec::new();
        let mut i: usize = 0;
        while i < services.len()
            invariant
                i <= services.len(),
                views@ == startup_views(services@.take(i as int)),
                distinct_service_ids(services@.take(i as int)),
            decreases services.len() - i,
        {
            let id = services[i].id.clone();
            match find_view(&views, &id) {
                Some(j) => {
                    proof {
                        assert(services@.take(i as int)[j as int] == services@[j as int]);
                        assert(services@[j as int].id@ == services@[i as int].id@);
                    }
                    return Err(ViewError::DuplicateService(id));
                },
                None => {},
            }
            views.push(ViewRecord { id, navigated: false, last_activity: None, badge: 0 });
            proof {
                assert(views@ =~= startup_views(services@.take(i + 1)));
                assert forall|a: int, b: int|
                    0 <= a < i + 1 && 0 <= b < i + 1 && a != b implies (#[trigger] services@.take(
                        i + 1,
                    )[a]).id@ != (#[trigger] services@.take(i + 1)[b]).id@ by {
                    if a == i {
                        assert(views@[b] == fresh_record(services@[b].id));
                    } else if b == i {
                        assert(views@[a] == fresh_record(services@[a].id));
                    } else {
                        assert(services@.take(i as int)[a] == services@[a]);
                        assert(services@.take(i as int)[b] == services@[b]);
                    }
                }
            }
            i = i + 1;
        }
        proof {
            assert(services@.take(i as int) =~= services@);
        }
        let st = WebviewState { services, views, active_id: None };
        proof {
            assert forall|k: int| 0 <= k < st.views@.len() implies has_service(
                st.services@,
                (#[trigger] st.views@[k]).id@,
            ) by {
                assert(st.services@[k].id@ == st.views@[k].id@);
            }
        }
        Ok(st)
    }

    /// Appends the commands that hide every view and the settings surface.
    pub fn hide_all(&self, actions: &mut Vec<HostAction>)
        ensures
            plan_view(final(actions)@) == plan_view(old(actions)@) + hide_all_plan(self@.views),
    {
        let ghost start = plan_view(actions@);
        let mut i: usize = 0;
        while i < self.views.len()
            invariant
                i <= self.views.len(),
                plan_view(actions@) == start + hide_views_plan(self.views@.take(i as int)),
            decreases self.views.len() - i,
        {
            let ghost before = actions@;
            let a = HostAction::HideView(self.views[i].id.clone());
            assert(a@ == HostActionView::HideView(self.views@[i as int].id@));
            actions.push(a);
            proof {
                assert(plan_view(actions@) =~= plan_view(before).push(a@));
                assert(hide_views_plan(self.views@.take(i + 1)) =~= hide_views_plan(
                    self.views@.take(i as int),
                ).push(a@));
                assert(plan_view(actions@) =~= start + hide_views_plan(self.views@.take(i + 1)));
            }
            i = i + 1;
        }
        let ghost before = actions@;
        actions.push(HostAction::HideSettings);
        proof {
            assert(plan_view(actions@) =~= plan_view(before).push(HostActionView::HideSettings));
            assert(self.views@.take(i as int) =~= self.views@);
            assert(plan_view(actions@) =~= start + hide_all_plan(self@.views));
        }
    }
    /// Loads the real page of the view at `idx` unless it already shows it.
    fn ensure_navigated(&mut self, idx: usize, actions: &mut Vec<HostAction>)
        requires
            wf(old(self)@),
            idx < old(self)@.views.len(),
        ensures
            wf(final(self)@),
            final(self)@ == (SessionView {
                services: old(self)@.services,
                views: old(self)@.views.update(
                    idx as int,
                    ViewRecord { navigated: true, ..old(self)@.views[idx as int] },
                ),
                active: old(self)@.active,
            }),
            plan_view(final(actions)@) == plan_view(old(actions)@) + navigate_plan(
                old(self)@,
                old(self)@.views[idx as int].id@,
            ),
    {
        let ghost s = self@;
        let ghost id = self.views@[idx as int].id@;
        proof {
            lemma_view_index(s.views, id, idx as int);
            assert(has_service(s.services, id));
            lemma_service_url_some(s.services, id);
        }
        let rec = self.views[idx].clone();
        if rec.navigated {
            proof {
                assert(s.views.update(idx as int, ViewRecord { navigated: true, ..s.views[idx as int] })
                    =~= s.views);
                assert(plan_view(actions@) =~= plan_view(actions@) + navigate_plan(s, id));
            }
            return;
        }
        match find_service(&self.services, &rec.id) {
            Some(k) => {
                let ghost before = actions@;
                let a = HostAction::Navigate(rec.id.clone(), self.services[k].url.clone());
                actions.push(a);
                proof {
                    assert(plan_view(actions@) =~= plan_view(before) + navigate_plan(s, id));
                }
            },
            None => {},
        }
        self.views.set(
            idx,
            ViewRecord { id: rec.id, navigated: true, last_activity: rec.last_activity, badge: rec.badge },
        );
        proof {
            assert(self@.views =~= s.views.update(
                idx as int,
                ViewRecord { navigated: true, ..s.views[idx as int] },
            ));
            assert forall|i: int| 0 <= i < self@.views.len() implies has_service(
                self@.services,
                (#[trigger] self@.views[i]).id@,
            ) by {
                assert(self@.views[i].id == s.views[i].id);
            }
            if let Some(a) = self@.active {
                let w = choose|w: int| 0 <= w < s.views.len() && (#[trigger] s.views[w]).id@ == a;
                assert(self@.views[w].id@ == a);
            }
        }
    }

    /// Makes the view of `id` the only visible one. Everything is hidden
    /// first; then, if `id` has a view, its real page is loaded when it is not
    /// yet, the view is shown, becomes active, and `now` is its last activity.
    /// Without a view the call fails: `RequiresRestart` when the service was
    /// added after startup, `NotFound` when no service has the id.
    pub fn switch_to(&mut self, id: &str, now: u64, actions: &mut Vec<HostAction>) -> (r: Result<
        (),
        ViewError,
    >)
        requires
            wf(old(self)@),
        ensures
            wf(final(self)@),
            result_view(r) == switch_result(old(self)@, id@),
            final(self)@ == switch_state(old(self)@, id@, now),
            plan_view(final(actions)@) == plan_view(old(actions)@) + switch_plan(old(self)@, id@),
    {
        let ghost s = self@;
        let ghost start = actions@;
        self.hide_all(actions);
        let key = String::from_str(id);
        match find_view(&self.views, &key) {
            None => {
                if find_service(&self.services, &key).is_some() {
                    Err(ViewError::RequiresRestart(key))
                } else {
                    Err(ViewError::NotFound(key))
                }
            },
            Some(idx) => {
                let ghost mid = actions@;
                self.ensure_navigated(idx, actions);
                let ghost after_nav = actions@;
                actions.push(HostAction::ShowView(key.clone()));
                let rec = self.views[idx].clone();
                self.views.set(
                    idx,
                    ViewRecord { id: rec.id, navigated: true, last_activity: Some(now), badge: rec.badge },
                );
                self.active_id = Some(key);
                proof {
                    lemma_view_index(s.views, id@, idx as int);
                    assert(plan_view(actions@) =~= plan_view(after_nav).push(
                        HostActionView::ShowView(id@),
                    ));
                    assert(plan_view(actions@) =~= plan_view(start) + switch_plan(s, id@));
                    assert forall|i: int| 0 <= i < s.views.len() implies #[trigger] self@.views[i] == (
                    if s.views[i].id@ == id@ {
                        visited(s.views[i], now)
                    } else {
                        s.views[i]
                    }) by {
                        if i != idx {
                            assert(s.views[i].id@ != s.views[idx as int].id@);
                        }
                    }
                    assert(self@.views =~= switch_state(s, id@, now).views);
                    assert forall|i: int| 0 <= i < self@.views.len() implies has_service(
                        self@.services,
                        (#[trigger] self@.views[i]).id@,
                    ) by {
                        assert(self@.views[i].id == s.views[i].id);
                    }
                    assert(self@.views[idx as int].id@ == id@);
                }
                Ok(())
            },
        }
    }

    /// Hides every view and shows the settings surface; no service view is
    /// active afterwards.
    pub fn show_settings(&mut self, actions: &mut Vec<HostAction>)
        requires
            wf(old(self)@),
        ensures
            wf(final(self)@),
            final(self)@ == settings_state(old(self)@),
            plan_view(final(actions)@) == plan_view(old(actions)@) + settings_plan(old(self)@),
    {
        self.hide_all(actions);
        let ghost before = actions@;
        actions.push(HostAction::ShowSettings);
        self.active_id = None;
        proof {
            assert(plan_view(actions@) =~= plan_view(before).push(HostActionView::ShowSettings));
        }
    }

    /// Loads the real page of the view of `id` again, without changing its
    /// lifecycle phase; `NotFound` when `id` has no view.
    pub fn reload_service(&self, id: &str, actions: &mut Vec<HostAction>) -> (r: Result<(), ViewError>)
        requires
            wf(self@),
        ensures
            result_view(r) == reload_result(self@, id@),
            plan_view(final(actions)@) == plan_view(old(actions)@) + reload_plan(self@, id@),
    {
        let key = String::from_str(id);
        match find_view(&self.views, &key) {
            None => {
                proof {
                    assert(plan_view(actions@) =~= plan_view(actions@) + reload_plan(self@, id@));
                }
                Err(ViewError::NotFound(key))
            },
            Some(_) => {
                match find_service(&self.services, &key) {
                    Some(k) => {
                        let ghost before = actions@;
                        actions.push(HostAction::Navigate(key, self.services[k].url.clone()));
                        proof {
                            assert(plan_view(actions@) =~= plan_view(before) + reload_plan(self@, id@));
                        }
                    },
                    None => {
                        proof {
                            assert(plan_view(actions@) =~= plan_view(actions@) + reload_plan(self@, id@));
                        }
                    },
                }
                Ok(())
            },
        }
    }

    /// Replaces the service list. Views whose service is gone are blanked,
    /// hidden and forgotten with their badge and activity; the active id is
    /// cleared if its service is gone; the sidebar is asked to reload. No view
    /// is created: the result says whether some new service has none, which
    /// then needs a restart.
    pub fn apply_service_changes(&mut self, new_services: Vec<Service>, actions: &mut Vec<HostAction>) -> (r:
        bool)
        requires
            wf(old(self)@),
        ensures
            wf(final(self)@),
            r == has_additions(old(self)@.views, new_services@),
            final(self)@ == apply_state(old(self)@, new_services@),
            plan_view(final(actions)@) == plan_view(old(actions)@) + apply_plan(
                old(self)@,
                new_services@,
            ),
    {
        let ghost s = self@;
        let ghost start = actions@;
        let mut has_new = false;
        let mut k: usize = 0;
        while k < new_services.len()
            invariant
                self@ == s,
                k <= new_services.len(),
                has_new == exists|j: int|
                    0 <= j < k && !has_view(s.views, (#[trigger] new_services@[j]).id@),
            decreases new_services.len() - k,
        {
            if find_view(&self.views, &new_services[k].id).is_none() {
                has_new = true;
            }
            k = k + 1;
        }
        let mut kept: Vec<ViewRecord> = Vec::new();
        let mut i: usize = 0;
        while i < self.views.len()
            invariant
                self@ == s,
                i <= self.views.len(),
                kept@ == kept_views(s.views.take(i as int), new_services@),
                plan_view(actions@) == plan_view(start) + removal_plan(
                    s.views.take(i as int),
                    new_services@,
                ),
            decreases self.views.len() - i,
        {
            proof {
                assert(s.views.take(i + 1).drop_last() =~= s.views.take(i as int));
            }
            let rec = self.views[i].clone();
            if has_service_id(&new_services, &rec.id) {
                kept.push(rec);
            } else {
                let ghost before = actions@;
                actions.push(HostAction::Blank(rec.id.clone()));
                actions.push(HostAction::HideView(rec.id));
                proof {
                    assert(plan_view(actions@) =~= plan_view(before) + seq![
                        HostActionView::Blank(s.views[i as int].id@),
                        HostActionView::HideView(s.views[i as int].id@),
                    ]);
                }
            }
            i = i + 1;
        }
        proof {
            assert(s.views.take(i as int) =~= s.views);
        }
        self.views = kept;
        let clear = match &self.active_id {
            Some(a) => !has_service_id(&new_services, a),
            None => false,
        };
        if clear {
            self.active_id = None;
        }
        self.services = new_services;
        let ghost before = actions@;
        actions.push(HostAction::RefreshSidebar);
        proof {
            assert(plan_view(actions@) =~= plan_view(before).push(HostActionView::RefreshSidebar));
            lemma_kept_views(s.views, self@.services);
            assert(self@ == apply_state(s, self@.services));
            if let Some(a) = self@.active {
                assert(has_view(s.views, a));
            }
        }
        has_new
    }

    /// One pass of the hibernation sweeper at time `now`: every loaded view
    /// other than the active one that has been idle for longer than
    /// `HIBERNATION_SECS` is blanked and returns to the not-loaded phase, so
    /// that the next switch to it loads it again.
    pub fn check_hibernation(&mut self, now: u64, actions: &mut Vec<HostAction>)
        requires
            wf(old(self)@),
        ensures
            wf(final(self)@),
            final(self)@ == sweep_state(old(self)@, now),
            plan_view(final(actions)@) == plan_view(old(actions)@) + sweep_plan(
                old(self)@.views,
                old(self)@.active,
                now,
            ),
            forall|i: int|
                0 <= i < old(self)@.views.len() && old(self)@.active == Some(
                    old(self)@.views[i].id@,
                ) ==> #[trigger] final(self)@.views[i] == old(self)@.views[i],
    {
        let ghost s = self@;
        let ghost start = actions@;
        let mut i: usize = 0;
        while i < self.views.len()
            invariant
                i <= self.views.len(),
                self.views.len() == s.views.len(),
                self.services@ == s.services,
                opt_view(self.active_id) == s.active,
                forall|j: int| 0 <= j < i ==> #[trigger] self.views@[j] == sweep_state(s, now).views[j],
                forall|j: int| i <= j < self.views.len() ==> #[trigger] self.views@[j] == s.views[j],
                plan_view(actions@) == plan_view(start) + sweep_plan(s.views.take(i as int), s.active, now),
            decreases self.views.len() - i,
        {
            proof {
                assert(s.views.take(i + 1).drop_last() =~= s.views.take(i as int));
            }
            let rec = self.views[i].clone();
            let is_active = match &self.active_id {
                Some(a) => *a == rec.id,
                None => false,
            };
            let expired = match rec.last_activity {
                Some(t) => now > t && now - t > HIBERNATION_SECS,
                None => false,
            };
            if rec.navigated && !is_active && expired {
                let ghost before = actions@;
                actions.push(HostAction::Blank(rec.id.clone()));
                proof {
                    assert(plan_view(actions@) =~= plan_view(before).push(
                        HostActionView::Blank(s.views[i as int].id@),
                    ));
                }
                self.views.set(
                    i,
                    ViewRecord { id: rec.id, navigated: false, last_activity: None, badge: rec.badge },
                );
            }
            i = i + 1;
        }
        proof {
            assert(s.views.take(i as int) =~= s.views);
            assert(self@.views =~= sweep_state(s, now).views);
            assert forall|a: int, b: int|
                0 <= a < self@.views.len() && 0 <= b < self@.views.len() && a != b implies (
                #[trigger] self@.views[a]).id@ != (#[trigger] self@.views[b]).id@ by {
                assert(self@.views[a].id == s.views[a].id);
                assert(self@.views[b].id == s.views[b].id);
            }
            assert forall|j: int| 0 <= j < self@.views.len() implies has_service(
                self@.services,
                (#[trigger] self@.views[j]).id@,
            ) by {
                assert(self@.views[j].id == s.views[j].id);
            }
            if let Some(a) = self@.active {
                let w = choose|w: int| 0 <= w < s.views.len() && (#[trigger] s.views[w]).id@ == a;
                assert(self@.views[w].id@ == a);
            }
        }
    }

    /// Reacts to a new page title of the view of `service_id`. Empty and
    /// placeholder titles, and titles of views that do not exist (any more),
    /// are ignored. Otherwise the badge becomes the one read from the title;
    /// if `notify` is set and the badge grew, a notification titled with the
    /// service name is issued; the sidebar always gets the full badge list.
    pub fn handle_title_change(
        &mut self,
        service_id: &str,
        service_name: &str,
        title: &str,
        notify: bool,
        actions: &mut Vec<HostAction>,
    )
        requires
            wf(old(self)@),
        ensures
            wf(final(self)@),
            final(self)@ == title_state(old(self)@, service_id@, title@),
            plan_view(final(actions)@) == plan_view(old(actions)@) + title_plan(
                old(self)@,
                service_id@,
                service_name@,
                title@,
                notify,
            ),
    {
        let ghost s = self@;
        let ghost start = actions@;
        proof {
            reveal_strlit("about:blank");
        }
        if title.is_empty() || String::from_str(title) == String::from_str("about:blank") {
            proof {
                assert(plan_view(actions@) =~= plan_view(start) + title_plan(
                    s,
                    service_id@,
                    service_name@,
                    title@,
                    notify,
                ));
            }
            return;
        }
        let key = String::from_str(service_id);
        let idx = match find_view(&self.views, &key) {
            Some(idx) => idx,
            None => {
                proof {
                    assert(plan_view(actions@) =~= plan_view(start) + title_plan(
                        s,
                        service_id@,
                        service_name@,
                        title@,
                        notify,
                    ));
                }
                return;
            },
        };
        proof {
            lemma_view_index(s.views, service_id@, idx as int);
        }
        let count = extract_badge_count(title);
        let rec = self.views[idx].clone();
        let prev = rec.badge;
        self.views.set(
            idx,
            ViewRecord { id: rec.id, navigated: rec.navigated, last_activity: rec.last_activity, badge: count },
        );
        proof {
            assert forall|i: int| 0 <= i < s.views.len() implies #[trigger] self@.views[i] == (
            if s.views[i].id@ == service_id@ {
                with_badge(s.views[i], badge_of(title@))
            } else {
                s.views[i]
            }) by {
                if i != idx {
                    assert(s.views[i].id@ != s.views[idx as int].id@);
                }
            }
            assert(self@.views =~= title_state(s, service_id@, title@).views);
            assert forall|a: int, b: int|
                0 <= a < self@.views.len() && 0 <= b < self@.views.len() && a != b implies (
                #[trigger] self@.views[a]).id@ != (#[trigger] self@.views[b]).id@ by {
                assert(self@.views[a].id == s.views[a].id);
                assert(self@.views[b].id == s.views[b].id);
            }
            assert forall|j: int| 0 <= j < self@.views.len() implies has_service(
                self@.services,
                (#[trigger] self@.views[j]).id@,
            ) by {
                assert(self@.views[j].id == s.views[j].id);
            }
            if let Some(a) = self@.active {
                let w = choose|w: int| 0 <= w < s.views.len() && (#[trigger] s.views[w]).id@ == a;
                assert(self@.views[w].id@ == a);
            }
        }
        if notify {
            match notification_body(count, prev, service_name) {
                Some(body) => {
                    let ghost before = actions@;
                    actions.push(HostAction::Notify(String::from_str(service_name), body));
                    proof {
                        assert(plan_view(actions@) =~= plan_view(before).push(
                            HostActionView::Notify(service_name@, body@),
                        ));
                    }
                },
                None => {},
            }
        }
        let ghost before = actions@;
        let badges = badge_list(&self.views);
        actions.push(HostAction::UpdateBadges(badges));
        proof {
            assert(plan_view(actions@) =~= plan_view(before).push(
                HostActionView::UpdateBadges(badge_entries(self@.views)),
            ));
            assert(plan_view(actions@) =~= plan_view(start) + title_plan(
                s,
                service_id@,
                service_name@,
                title@,
                notify,
            ));
        }
    }

    /// The configured services, in display order.
    pub fn get_services(&self) -> (r: Vec<Service>)
        ensures
            r@ == self@.services,
    {
        let mut r: Vec<Service> = Vec::new();
        let mut i: usize = 0;
        while i < self.services.len()
            invariant
                i <= self.services.len(),
                r@ == self.services@.take(i as int),
            decreases self.services.len() - i,
        {
            r.push(self.services[i].clone());
            proof {
                assert(r@ =~= self.services@.take(i + 1));
            }
            i = i + 1;
        }
        proof {
            assert(r@ =~= self.services@);
        }
        r
    }

    /// URL of the first service with this id.
    pub fn get_service_url(&self, id: &str) -> (r: Option<String>)
        ensures
            opt_view(r) == service_url(self@.services, id@),
    {
        let key = String::from_str(id);
        match find_service(&self.services, &key) {
            Some(k) => Some(self.services[k].url.clone()),
            None => None,
        }
    }

    /// Badge of every view that has one, in view order.
    pub fn get_badge_counts(&self) -> (r: Vec<(String, u32)>)
        ensures
            entries_view(r@) == badge_entries(self@.views),
    {
        badge_list(&self.views)
    }

    /// Id of the visible service view, if any.
    pub fn active_id(&self) -> (r: Option<String>)
        ensures
            opt_view(r) == self@.active,
    {
        match &self.active_id {
            Some(a) => Some(a.clone()),
            None => None,
        }
    }

    /// Ids of the created views, in creation order.
    pub fn created_ids(&self) -> (r: Vec<String>)
        ensures
            texts(r@) == view_ids(self@.views),
    {
        let mut r: Vec<String> = Vec::new();
        let mut i: usize = 0;
        while i < self.views.len()
            invariant
                i <= self.views.len(),
                texts(r@) == view_ids(self.views@.take(i as int)),
            decreases self.views.len() - i,
        {
            let ghost before = r@;
            r.push(self.views[i].id.clone());
            proof {
                assert(texts(r@) =~= texts(before).push(self.views@[i as int].id@));
                assert(view_ids(self.views@.take(i + 1)) =~= view_ids(self.views@.take(i as int)).push(
                    self.views@[i as int].id@,
                ));
                assert(texts(r@) =~= view_ids(self.views@.take(i + 1)));
            }
            i = i + 1;
        }
        proof {
            assert(self.views@.take(i as int) =~= self.views@);
        }
        r
    }
}

} // verus!
