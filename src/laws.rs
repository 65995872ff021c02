use vstd::prelude::*;

use crate::config::Service;
use crate::webviews::{
    apply_state, badge_entries, has_additions, has_service, has_view, hibernated, hide_all_plan,
    hide_views_plan, idle, is_navigated, lemma_kept_views, lemma_service_url_some, lemma_view_index,
    navigate_plan, removal_plan, service_url, settings_plan, settings_state, sweep_plan, sweep_state, switch_plan,
    switch_result, switch_state, title_plan, title_state, view_index, wf, HostActionView, SessionView,
    ViewErrorView, ViewRecord, apply_plan,
};

verus! {

/// A content surface of the window: the settings page or a service view.
pub enum Surface {
    Settings,
    View(Seq<char>),
}

/// The content surfaces that exist in a session.
pub open spec fn surfaces(s: SessionView) -> Set<Surface> {
    Set::new(
        |x: Surface|
            match x {
                Surface::Settings => true,
                Surface::View(id) => has_view(s.views, id),
            },
    )
}

/// Visible content surfaces after the host performs one command.
pub open spec fn host_step(vis: Set<Surface>, a: HostActionView) -> Set<Surface> {
    match a {
        HostActionView::HideView(id) => vis.remove(Surface::View(id)),
        HostActionView::HideSettings => vis.remove(Surface::Settings),
        HostActionView::ShowView(id) => vis.insert(Surface::View(id)),
        HostActionView::ShowSettings => vis.insert(Surface::Settings),
        _ => vis,
    }
}

/// Visible content surfaces after the host performs a list of commands.
pub open spec fn run_host(vis: Set<Surface>, plan: Seq<HostActionView>) -> Set<Surface>
    decreases plan.len(),
{
    if plan.len() == 0 {
        vis
    } else {
        host_step(run_host(vis, plan.drop_last()), plan.last())
    }
}

proof fn lemma_run_host_append(vis: Set<Surface>, a: Seq<HostActionView>, b: Seq<HostActionView>)
    ensures
        run_host(vis, a + b) == run_host(run_host(vis, a), b),
    decreases b.len(),
{
    if b.len() == 0 {
        assert(a + b =~= a);
    } else {
        assert((a + b).drop_last() =~= a + b.drop_last());
        lemma_run_host_append(vis, a, b.drop_last());
    }
}

proof fn lemma_hide_views(vis: Set<Surface>, views: Seq<ViewRecord>)
    ensures
        forall|x: Surface|
            #[trigger] run_host(vis, hide_views_plan(views)).contains(x) <==> vis.contains(x) && !(
            x matches Surface::View(id) && has_view(views, id)),
    decreases views.len(),
{
    if views.len() > 0 {
        let d = views.drop_last();
        lemma_hide_views(vis, d);
        assert(hide_views_plan(views).drop_last() =~= hide_views_plan(d));
        let p = hide_views_plan(views);
        let last = views.last().id@;
        assert(p.last() == HostActionView::HideView(last));
        assert(run_host(vis, p) == run_host(vis, hide_views_plan(d)).remove(Surface::View(last)));
        assert(views[views.len() - 1].id@ == last);
        assert forall|x: Surface|
            #[trigger] run_host(vis, hide_views_plan(views)).contains(x) <==> vis.contains(x) && !(
            x matches Surface::View(id) && has_view(views, id)) by {
            assert(run_host(vis, hide_views_plan(d)).contains(x) <==> vis.contains(x) && !(
            x matches Surface::View(id) && has_view(d, id)));
            if let Surface::View(id) = x {
                if has_view(views, id) && !has_view(d, id) {
                    let i = choose|i: int| 0 <= i < views.len() && (#[trigger] views[i]).id@ == id;
                    if i < views.len() - 1 {
                        assert(d[i] == views[i]);
                    }
                }
                if has_view(d, id) {
                    let i = choose|i: int| 0 <= i < d.len() && (#[trigger] d[i]).id@ == id;
                    assert(views[i] == d[i]);
                }
            }
        }
    }
}

proof fn lemma_hide_all(vis: Set<Surface>, s: SessionView)
    requires
        vis.subset_of(surfaces(s)),
    ensures
        run_host(vis, hide_all_plan(s.views)) == Set::<Surface>::empty(),
{
    lemma_hide_views(vis, s.views);
    assert(hide_all_plan(s.views).drop_last() =~= hide_views_plan(s.views));
    let r = run_host(vis, hide_all_plan(s.views));
    assert(r == run_host(vis, hide_views_plan(s.views)).remove(Surface::Settings));
    assert forall|x: Surface| !r.contains(x) by {
        if r.contains(x) {
            assert(vis.contains(x));
            assert(surfaces(s).contains(x));
        }
    }
    assert(run_host(vis, hide_all_plan(s.views)) =~= Set::<Surface>::empty());
}

/// Whatever was visible among the existing surfaces, a switch leaves
/// exactly the requested view visible when it succeeds and nothing when it
/// fails, and opening settings leaves only the settings page visible. What
/// remains visible always exists in the new state, so over any sequence of
/// these calls at most one content surface is visible at a time.
pub proof fn lemma_single_visible_surface(s: SessionView, id: Seq<char>, now: u64, vis: Set<Surface>)
    requires
        wf(s),
        vis.subset_of(surfaces(s)),
    ensures
        switch_result(s, id) is Ok ==> run_host(vis, switch_plan(s, id)) == set![Surface::View(id)],
        switch_result(s, id) is Err ==> run_host(vis, switch_plan(s, id)) == Set::<Surface>::empty(),
        run_host(vis, switch_plan(s, id)).subset_of(surfaces(switch_state(s, id, now))),
        run_host(vis, settings_plan(s)) == set![Surface::Settings],
{
    lemma_hide_all(vis, s);
    let hidden = run_host(vis, hide_all_plan(s.views));
    if has_view(s.views, id) {
        let tail = navigate_plan(s, id).push(HostActionView::ShowView(id));
        lemma_run_host_append(vis, hide_all_plan(s.views), tail);
        assert(tail.drop_last() =~= navigate_plan(s, id));
        if navigate_plan(s, id).len() > 0 {
            assert(navigate_plan(s, id).drop_last() =~= Seq::<HostActionView>::empty());
            assert(run_host(hidden, Seq::<HostActionView>::empty()) == hidden);
        }
        assert(run_host(hidden, navigate_plan(s, id)) == hidden);
        assert(run_host(vis, switch_plan(s, id)) =~= set![Surface::View(id)]);
        let t = switch_state(s, id, now);
        let i = choose|i: int| 0 <= i < s.views.len() && (#[trigger] s.views[i]).id@ == id;
        assert(t.views[i].id@ == id);
    } else {
        assert(run_host(vis, switch_plan(s, id)) =~= Set::<Surface>::empty());
    }
    assert(settings_plan(s).drop_last() == hide_all_plan(s.views));
    assert(run_host(vis, settings_plan(s)) =~= set![Surface::Settings]);
}

proof fn lemma_removal_hides(vis: Set<Surface>, views: Seq<ViewRecord>, services: Seq<Service>)
    ensures
        forall|x: Surface|
            #[trigger] run_host(vis, removal_plan(views, services)).contains(x) <==> vis.contains(x)
                && !(x matches Surface::View(id) && has_view(views, id) && !has_service(services, id)),
    decreases views.len(),
{
    if views.len() > 0 {
        let d = views.drop_last();
        let l = views.last().id@;
        lemma_removal_hides(vis, d, services);
        let before = run_host(vis, removal_plan(d, services));
        if !has_service(services, l) {
            let tail = seq![HostActionView::Blank(l), HostActionView::HideView(l)];
            lemma_run_host_append(vis, removal_plan(d, services), tail);
            assert(tail.drop_last() =~= seq![HostActionView::Blank(l)]);
            assert(tail.drop_last().drop_last() =~= Seq::<HostActionView>::empty());
            assert(run_host(before, tail.drop_last().drop_last()) == before);
            assert(run_host(before, tail.drop_last()) == before);
            assert(tail.last() == HostActionView::HideView(l));
            assert(run_host(before, tail) == before.remove(Surface::View(l)));
        }
        assert(views[views.len() - 1].id@ == l);
        assert forall|x: Surface|
            #[trigger] run_host(vis, removal_plan(views, services)).contains(x) <==> vis.contains(x)
                && !(x matches Surface::View(id) && has_view(views, id) && !has_service(services, id)) by {
            assert(before.contains(x) <==> vis.contains(x) && !(x matches Surface::View(id) && has_view(
                d,
                id,
            ) && !has_service(services, id)));
            if let Surface::View(id) = x {
                if has_view(views, id) && !has_view(d, id) {
                    let i = choose|i: int| 0 <= i < views.len() && (#[trigger] views[i]).id@ == id;
                    if i < views.len() - 1 {
                        assert(d[i] == views[i]);
                    }
                }
                if has_view(d, id) {
                    let i = choose|i: int| 0 <= i < d.len() && (#[trigger] d[i]).id@ == id;
                    assert(views[i] == d[i]);
                }
            }
        }
    }
}

proof fn lemma_sweep_shows_nothing(vis: Set<Surface>, views: Seq<ViewRecord>, active: Option<Seq<char>>, now: u64)
    ensures
        run_host(vis, sweep_plan(views, active, now)) == vis,
    decreases views.len(),
{
    if views.len() > 0 {
        lemma_sweep_shows_nothing(vis, views.drop_last(), active, now);
        if idle(views.last(), active, now) {
            assert(sweep_plan(views, active, now).drop_last() =~= sweep_plan(views.drop_last(), active, now));
        }
    }
}

/// Reconciliation, a hibernation sweep and a title change never make a
/// surface visible; reconciliation hides every view it removes, so what stays
/// visible still exists afterwards. Together with the switch law, no
/// interleaving of operations ever shows two content surfaces.
pub proof fn lemma_other_operations_show_nothing(
    s: SessionView,
    services: Seq<Service>,
    now: u64,
    id: Seq<char>,
    name: Seq<char>,
    title: Seq<char>,
    notify: bool,
    vis: Set<Surface>,
)
    requires
        wf(s),
        vis.subset_of(surfaces(s)),
    ensures
        run_host(vis, apply_plan(s, services)).subset_of(vis),
        run_host(vis, apply_plan(s, services)).subset_of(surfaces(apply_state(s, services))),
        run_host(vis, sweep_plan(s.views, s.active, now)) == vis,
        run_host(vis, title_plan(s, id, name, title, notify)) == vis,
{
    lemma_removal_hides(vis, s.views, services);
    lemma_kept_views(s.views, services);
    let r = run_host(vis, apply_plan(s, services));
    assert(apply_plan(s, services).drop_last() =~= removal_plan(s.views, services));
    assert(r == run_host(vis, removal_plan(s.views, services)));
    assert forall|x: Surface| r.contains(x) implies surfaces(apply_state(s, services)).contains(x) by {
        assert(vis.contains(x));
        assert(surfaces(s).contains(x));
    }
    lemma_sweep_shows_nothing(vis, s.views, s.active, now);
    let t = title_plan(s, id, name, title, notify);
    if t.len() > 0 {
        assert(t.drop_last().len() == 0 ==> t.drop_last() =~= Seq::<HostActionView>::empty());
        if t.drop_last().len() > 0 {
            assert(t.drop_last().drop_last() =~= Seq::<HostActionView>::empty());
            assert(run_host(vis, t.drop_last().drop_last()) == vis);
        }
        assert(run_host(vis, t.drop_last()) == vis);
    }
}

/// Hide all, load the real page, show: what switching to a view that is
/// created but not loaded issues.
pub open spec fn first_visit_plan(s: SessionView, id: Seq<char>) -> Seq<HostActionView> {
    hide_all_plan(s.views) + seq![
        HostActionView::Navigate(id, service_url(s.services, id)->0),
        HostActionView::ShowView(id),
    ]
}

/// Switching to a view that was never loaded loads it and then shows it.
pub proof fn lemma_first_visit(s: SessionView, id: Seq<char>)
    requires
        wf(s),
        has_view(s.views, id),
        !is_navigated(s.views, id),
    ensures
        switch_result(s, id) is Ok,
        switch_plan(s, id) == first_visit_plan(s, id),
{
    let i = choose|i: int| 0 <= i < s.views.len() && (#[trigger] s.views[i]).id@ == id;
    assert(has_service(s.services, s.views[i].id@));
    lemma_service_url_some(s.services, id);
    assert(switch_plan(s, id) =~= first_visit_plan(s, id));
}

/// A view that the sweeper unloads is afterwards indistinguishable from one
/// never visited: not loaded, no activity, and the next switch to it issues
/// the same commands as a first visit (load, then show).
pub proof fn lemma_hibernation_restores_first_visit(s: SessionView, id: Seq<char>, now: u64)
    requires
        wf(s),
        has_view(s.views, id),
        idle(s.views[view_index(s.views, id)], s.active, now),
    ensures
        sweep_state(s, now).views[view_index(s.views, id)] == hibernated(
            s.views[view_index(s.views, id)],
        ),
        !is_navigated(sweep_state(s, now).views, id),
        switch_result(sweep_state(s, now), id) is Ok,
        switch_plan(sweep_state(s, now), id) == first_visit_plan(s, id),
{
    let t = sweep_state(s, now);
    let i = view_index(s.views, id);
    assert(t.views[i].id == s.views[i].id);
    assert forall|a: int, b: int|
        0 <= a < t.views.len() && 0 <= b < t.views.len() && a != b implies (#[trigger] t.views[a]).id@
        != (#[trigger] t.views[b]).id@ by {
        assert(t.views[a].id == s.views[a].id);
        assert(t.views[b].id == s.views[b].id);
    }
    assert forall|j: int| 0 <= j < t.views.len() implies has_service(
        t.services,
        (#[trigger] t.views[j]).id@,
    ) by {
        assert(t.views[j].id == s.views[j].id);
    }
    if let Some(a) = t.active {
        let w = choose|w: int| 0 <= w < s.views.len() && (#[trigger] s.views[w]).id@ == a;
        assert(t.views[w].id@ == a);
    }
    lemma_view_index(t.views, id, i);
    lemma_first_visit(t, id);
    assert(hide_views_plan(t.views) =~= hide_views_plan(s.views));
}

proof fn lemma_badge_entries_have_views(views: Seq<ViewRecord>)
    ensures
        forall|k: int|
            0 <= k < badge_entries(views).len() ==> has_view(views, (#[trigger] badge_entries(views)[k]).0),
    decreases views.len(),
{
    if views.len() > 0 {
        let d = views.drop_last();
        lemma_badge_entries_have_views(d);
        assert forall|k: int| 0 <= k < badge_entries(views).len() implies has_view(
            views,
            (#[trigger] badge_entries(views)[k]).0,
        ) by {
            if k < badge_entries(d).len() {
                assert(badge_entries(views)[k] == badge_entries(d)[k]);
                let id = badge_entries(d)[k].0;
                assert(has_view(d, id));
                let i = choose|i: int| 0 <= i < d.len() && (#[trigger] d[i]).id@ == id;
                assert(views[i] == d[i]);
            } else {
                assert(views[views.len() - 1] == views.last());
            }
        }
    }
}

/// After a service is removed from the list, its id has no badge and
/// switching to it reports `NotFound`.
pub proof fn lemma_removed_service_is_forgotten(s: SessionView, services: Seq<Service>, id: Seq<char>)
    requires
        wf(s),
        !has_service(services, id),
    ensures
        forall|k: int|
            0 <= k < badge_entries(apply_state(s, services).views).len() ==> (#[trigger] badge_entries(
                apply_state(s, services).views,
            )[k]).0 != id,
        switch_result(apply_state(s, services), id) == Err::<(), ViewErrorView>(
            ViewErrorView::NotFound(id),
        ),
{
    let t = apply_state(s, services);
    lemma_kept_views(s.views, services);
    lemma_badge_entries_have_views(t.views);
    assert(!has_view(t.views, id));
}

/// A service that had no view makes the reconciliation report additions,
/// and switching to it reports `RequiresRestart`.
pub proof fn lemma_added_service_requires_restart(s: SessionView, services: Seq<Service>, id: Seq<char>)
    requires
        wf(s),
        !has_view(s.views, id),
        has_service(services, id),
    ensures
        has_additions(s.views, services),
        switch_result(apply_state(s, services), id) == Err::<(), ViewErrorView>(
            ViewErrorView::RequiresRestart(id),
        ),
{
    let k = choose|k: int| 0 <= k < services.len() && (#[trigger] services[k]).id@ == id;
    assert(!has_view(s.views, services[k].id@));
    lemma_kept_views(s.views, services);
    assert(!has_view(apply_state(s, services).views, id));
}

proof fn lemma_same_ids(s: SessionView, views: Seq<ViewRecord>, x: Seq<char>)
    requires
        views.len() == s.views.len(),
        forall|i: int| 0 <= i < views.len() ==> (#[trigger] views[i]).id == s.views[i].id,
        has_view(views, x),
    ensures
        has_view(s.views, x),
{
    let i = choose|i: int| 0 <= i < views.len() && (#[trigger] views[i]).id@ == x;
    assert(s.views[i].id@ == x);
}

/// No operation after startup creates a view: an id without a view keeps
/// having none, so a service added later stays unavailable until restart.
pub proof fn lemma_no_view_created_after_startup(
    s: SessionView,
    x: Seq<char>,
    id: Seq<char>,
    now: u64,
    services: Seq<Service>,
    title: Seq<char>,
)
    requires
        wf(s),
        !has_view(s.views, x),
    ensures
        !has_view(switch_state(s, id, now).views, x),
        !has_view(settings_state(s).views, x),
        !has_view(apply_state(s, services).views, x),
        !has_view(sweep_state(s, now).views, x),
        !has_view(title_state(s, id, title).views, x),
{
    lemma_kept_views(s.views, services);
    let a = switch_state(s, id, now).views;
    if has_view(a, x) {
        lemma_same_ids(s, a, x);
    }
    let b = sweep_state(s, now).views;
    if has_view(b, x) {
        lemma_same_ids(s, b, x);
    }
    let c = title_state(s, id, title).views;
    if has_view(c, x) {
        lemma_same_ids(s, c, x);
    }
}

/// The sweeper leaves the active view alone, however long it has been idle:
/// its record is unchanged and it is never blanked.
pub proof fn lemma_sweep_spares_active(s: SessionView, now: u64)
    ensures
        forall|i: int|
            0 <= i < s.views.len() && s.active == Some(s.views[i].id@) ==> #[trigger] sweep_state(
                s,
                now,
            ).views[i] == s.views[i],
        forall|k: int|
            0 <= k < sweep_plan(s.views, s.active, now).len() && s.active is Some
                ==> #[trigger] sweep_plan(s.views, s.active, now)[k] != HostActionView::Blank(
                s.active->0,
            ),
{
    lemma_sweep_plan_blanks_idle(s.views, s.active, now);
}

proof fn lemma_sweep_plan_blanks_idle(views: Seq<ViewRecord>, active: Option<Seq<char>>, now: u64)
    ensures
        forall|k: int|
            0 <= k < sweep_plan(views, active, now).len() ==> exists|i: int|
                0 <= i < views.len() && idle(views[i], active, now) && #[trigger] sweep_plan(
                    views,
                    active,
                    now,
                )[k] == HostActionView::Blank(views[i].id@),
    decreases views.len(),
{
    if views.len() > 0 {
        let d = views.drop_last();
        lemma_sweep_plan_blanks_idle(d, active, now);
        assert forall|k: int| 0 <= k < sweep_plan(views, active, now).len() implies exists|i: int|
            0 <= i < views.len() && idle(views[i], active, now) && #[trigger] sweep_plan(
                views,
                active,
                now,
            )[k] == HostActionView::Blank(views[i].id@) by {
            if k < sweep_plan(d, active, now).len() {
                assert(sweep_plan(views, active, now)[k] == sweep_plan(d, active, now)[k]);
                let i = choose|i: int|
                    0 <= i < d.len() && idle(d[i], active, now) && #[trigger] sweep_plan(
                        d,
                        active,
                        now,
                    )[k] == HostActionView::Blank(d[i].id@);
                assert(views[i] == d[i]);
            } else {
                assert(views[views.len() - 1] == views.last());
            }
        }
    }
}

} // verus!
