use vstd::prelude::*;

use crate::webviews::{
    has_view, plan_view, reload_plan, service_url, wf, HostAction, HostActionView, WebviewState,
};

verus! {

/// Entries of the per-service context menu.
#[derive(PartialEq, Eq, Structural, Clone, Copy, Debug)]
pub enum MenuItem {
    Reload,
    OpenInBrowser,
}

impl MenuItem {
    /// The entry with this menu id, if any.
    pub fn from_id(id: &str) -> (r: Option<MenuItem>)
        ensures
            r == MenuItem::from_id_spec(id@),
    {
        let key = String::from_str(id);
        if key == String::from_str("ctx_reload") {
            Some(MenuItem::Reload)
        } else if key == String::from_str("ctx_open_browser") {
            Some(MenuItem::OpenInBrowser)
        } else {
            None
        }
    }

    /// `ctx_reload` and `ctx_open_browser` name the two entries.
    pub open spec fn from_id_spec(id: Seq<char>) -> Option<MenuItem> {
        if id == "ctx_reload"@ {
            Some(MenuItem::Reload)
        } else if id == "ctx_open_browser"@ {
            Some(MenuItem::OpenInBrowser)
        } else {
            None
        }
    }
}

/// What a menu entry does for the service it was opened on.
pub open spec fn menu_plan(
    target: Option<Seq<char>>,
    item: MenuItem,
    s: crate::webviews::SessionView,
) -> Seq<HostActionView> {
    match target {
        None => Seq::empty(),
        Some(t) => match item {
            MenuItem::Reload => reload_plan(s, t),
            MenuItem::OpenInBrowser => if service_url(s.services, t) is Some {
                seq![HostActionView::OpenInBrowser(service_url(s.services, t)->0)]
            } else {
                Seq::empty()
            },
        },
    }
}

/// The service on which the context menu was last opened.
pub struct ContextMenuTarget(pub Option<String>);

impl ContextMenuTarget {
    pub fn new() -> (r: Self)
        ensures
            r.0 is None,
    {
        ContextMenuTarget(None)
    }

    /// Records the service the menu is opened on.
    pub fn set(&mut self, id: &str)
        ensures
            final(self).0 matches Some(t) && t@ == id@,
    {
        self.0 = Some(String::from_str(id));
    }

    /// Appends what the chosen entry asks for: reloading the target's view,
    /// or opening its URL in the browser. Nothing when no target is set or
    /// the target's service is gone.
    pub fn menu_action(&self, item: MenuItem, state: &WebviewState, actions: &mut Vec<HostAction>)
        requires
            wf(state@),
        ensures
            plan_view(final(actions)@) == plan_view(old(actions)@) + menu_plan(
                crate::badge::opt_view(self.0),
                item,
                state@,
            ),
    {
        match &self.0 {
            None => {
                proof {
                    assert(plan_view(actions@) =~= plan_view(actions@) + Seq::<HostActionView>::empty());
                }
            },
            Some(t) => match item {
                MenuItem::Reload => {
                    let _ = state.reload_service(t.as_str(), actions);
                },
                MenuItem::OpenInBrowser => match state.get_service_url(t.as_str()) {
                    Some(url) => {
                        let ghost before = actions@;
                        actions.push(HostAction::OpenInBrowser(url));
                        proof {
                            assert(plan_view(actions@) =~= plan_view(before).push(
                                HostActionView::OpenInBrowser(url@),
                            ));
                        }
                    },
                    None => {
                        proof {
                            assert(plan_view(actions@) =~= plan_view(actions@) + Seq::<
                                HostActionView,
                            >::empty());
                        }
                    },
                },
            },
        }
    }
}

} // verus!
