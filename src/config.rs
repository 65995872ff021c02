use vstd::prelude::*;

verus! {

/// One configured service: a stable unique id, a display name, the URL its
/// view loads, and an icon reference.
#[derive(Debug, PartialEq, Eq)]
pub struct Service {
    pub id: String,
    pub name: String,
    pub url: String,
    pub icon: String,
}

impl Clone for Service {
    fn clone(&self) -> (r: Self)
        ensures
            r == *self,
    {
        Service {
            id: self.id.clone(),
            name: self.name.clone(),
            url: self.url.clone(),
            icon: self.icon.clone(),
        }
    }
}

/// User preferences kept by the configuration store.
#[derive(Debug, PartialEq, Eq)]
pub struct Preferences {
    pub icon_size: u32,
    pub sidebar_color: String,
    pub accent_color: String,
    pub notifications_enabled: bool,
}

pub fn default_icon_size() -> (r: u32)
    ensures
        r == 40,
{
    40
}

pub fn default_sidebar_color() -> (r: String)
    ensures
        r@ == "#16213e"@,
{
    String::from_str("#16213e")
}

pub fn default_accent_color() -> (r: String)
    ensures
        r@ == "#e94560"@,
{
    String::from_str("#e94560")
}

pub fn default_notifications_enabled() -> (r: bool)
    ensures
        r,
{
    true
}

impl Default for Preferences {
    fn default() -> (r: Self)
        ensures
            r.icon_size == 40,
            r.sidebar_color@ == "#16213e"@,
            r.accent_color@ == "#e94560"@,
            r.notifications_enabled,
    {
        Preferences {
            icon_size: default_icon_size(),
            sidebar_color: default_sidebar_color(),
            accent_color: default_accent_color(),
            notifications_enabled: default_notifications_enabled(),
        }
    }
}

/// Persisted session facts: the service that was last shown.
#[derive(Debug, PartialEq, Eq)]
pub struct AppState {
    pub last_active_service: Option<String>,
}

impl Default for AppState {
    fn default() -> (r: Self)
        ensures
            r.last_active_service is None,
    {
        AppState { last_active_service: None }
    }
}

#[verifier::external_type_specification]
#[verifier::external_body]
pub struct ExPathBuf(std::path::PathBuf);

/// Relies on std::path::Path::join: the directory with one more component
/// adjoined. Nothing is claimed of the resulting path.
#[verifier::external_body]
fn join_path(dir: &std::path::PathBuf, name: &str) -> std::path::PathBuf {
    dir.join(name)
}

/// Location of the service list inside the application data directory.
pub fn get_services_path(app_data_dir: &std::path::PathBuf) -> std::path::PathBuf {
    join_path(app_data_dir, "services.json")
}

/// Whether `url::Url::parse` accepts the text as an absolute URL.
pub uninterp spec fn parses_as_url(s: Seq<char>) -> bool;

/// Relies on url::Url::parse: whether parsing succeeds depends on the text alone.
#[verifier::external_body]
fn url_parses(s: &str) -> (r: bool)
    ensures
        r == parses_as_url(s@),
{
    url::Url::parse(s).is_ok()
}

/// The services whose flag is set, in list order.
pub open spec fn kept(services: Seq<Service>, keep: Seq<bool>) -> Seq<Service>
    decreases services.len(),
{
    if services.len() == 0 {
        Seq::empty()
    } else {
        let rest = kept(services.drop_last(), keep.drop_last());
        if keep[services.len() - 1] {
            rest.push(services.last())
        } else {
            rest
        }
    }
}

/// For each service, whether its URL parses.
pub open spec fn url_flags(services: Seq<Service>) -> Seq<bool> {
    services.map_values(|s: Service| parses_as_url(s.url@))
}

/// Keeps exactly the services whose flag is set, preserving order.
pub fn keep_flagged(services: &Vec<Service>, keep: &Vec<bool>) -> (r: Vec<Service>)
    requires
        services.len() == keep.len(),
    ensures
        r@ == kept(services@, keep@),
{
    let mut r: Vec<Service> = Vec::new();
    let mut i: usize = 0;
    while i < services.len()
        invariant
            i <= services.len(),
            services.len() == keep.len(),
            r@ == kept(services@.take(i as int), keep@.take(i as int)),
        decreases services.len() - i,
    {
        proof {
            assert(services@.take(i + 1).drop_last() =~= services@.take(i as int));
            assert(keep@.take(i + 1).drop_last() =~= keep@.take(i as int));
        }
        if keep[i] {
            r.push(services[i].clone());
        }
        i = i + 1;
    }
    proof {
        assert(services@.take(i as int) =~= services@);
        assert(keep@.take(i as int) =~= keep@);
    }
    r
}

/// Drops every service whose URL does not parse; order is preserved.
pub fn filter_valid_services(services: &Vec<Service>) -> (r: Vec<Service>)
    ensures
        r@ == kept(services@, url_flags(services@)),
{
    let mut flags: Vec<bool> = Vec::new();
    let mut i: usize = 0;
    while i < services.len()
        invariant
            i <= services.len(),
            flags@ == url_flags(services@.take(i as int)),
        decreases services.len() - i,
    {
        let ok = url_parses(services[i].url.as_str());
        flags.push(ok);
        proof {
            assert(flags@ =~= url_flags(services@.take(i + 1)));
        }
        i = i + 1;
    }
    proof {
        assert(services@.take(i as int) =~= services@);
    }
    keep_flagged(services, &flags)
}

} // verus!
