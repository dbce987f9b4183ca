//! Addresses of the remote build service.

use vstd::prelude::*;
use crate::configs::{Project, Vtex};

verus! {

/// The operations the build service offers.
#[derive(Debug, Clone, Copy, PartialEq, Eq, Structural)]
pub enum Routes {
    Link,
    Relink,
    Availability,
    Clean,
}

/// The push channels of the event service.
#[derive(Debug, Clone, Copy, PartialEq, Eq, Structural)]
pub enum Channel {
    Build,
    Status,
    Logs,
}

/// `vendor.name@version`, the way a project is written in an address.
pub open spec fn app_id(project: Project) -> Seq<char> {
    project.vendor@ + "."@ + project.name@ + "@"@ + project.version@
}

/// The part of every builder address that comes before the operation: it
/// names the account and the workspace.
pub open spec fn builder_base(env: Vtex) -> Seq<char> {
    "https://app.io.vtex.com/vtex.builder-hub/v0/"@ + env.account@ + "/"@ + env.workspace@
        + "/_v/builder/0/"@
}

/// The full address of one builder operation.
pub open spec fn route_url(route: Routes, project: Project, env: Vtex) -> Seq<char> {
    match route {
        Routes::Link => builder_base(env) + "link/"@ + app_id(project)
            + "?tsErrorsAsWarnings=false"@,
        Routes::Relink => builder_base(env) + "relink/"@ + app_id(project)
            + "?tsErrorsAsWarnings=false"@,
        Routes::Availability => builder_base(env) + "availability/"@ + app_id(project),
        Routes::Clean => builder_base(env) + "clean/"@ + app_id(project),
    }
}

/// The part of every event address that comes before the channel.
pub open spec fn events_base(env: Vtex) -> Seq<char> {
    "https://infra.io.vtex.com/colossus/v0/"@ + env.account@ + "/"@ + env.workspace@
}

/// The full address of one push channel.
pub open spec fn channel_url(channel: Channel, env: Vtex) -> Seq<char> {
    match channel {
        Channel::Build => events_base(env)
            + "/events?onUnsubscribe=link_interrupted&sender=vtex.builder-hub&keys=build.status"@,
        Channel::Status => events_base(env)
            + "/events?onUnsubscribe=link_interrupted&sender=vtex.builder-hub&keys=receive.status"@,
        Channel::Logs => events_base(env) + "/logs?level=debug"@,
    }
}

/// Appends `vendor.name@version` to `out`.
pub fn push_app_id(out: &mut String, project: &Project)
    ensures
        final(out)@ == old(out)@ + app_id(*project),
{
    out.append(project.vendor.as_str());
    out.append(".");
    out.append(project.name.as_str());
    out.append("@");
    out.append(project.version.as_str());
    assert(out@ == old(out)@ + app_id(*project));
}

impl Routes {
    /// The address of `route` for this project and workspace.
    pub fn assemble(route: Routes, project: &Project, env: &Vtex) -> (url: String)
        ensures
            url@ == route_url(route, *project, *env),
    {
        let mut url = String::from_str("https://app.io.vtex.com/vtex.builder-hub/v0/");
        url.append(env.account.as_str());
        url.append("/");
        url.append(env.workspace.as_str());
        url.append("/_v/builder/0/");
        assert(url@ == builder_base(*env));
        match route {
            Routes::Link => {
                url.append("link/");
                push_app_id(&mut url, project);
                url.append("?tsErrorsAsWarnings=false");
            },
            Routes::Relink => {
                url.append("relink/");
                push_app_id(&mut url, project);
                url.append("?tsErrorsAsWarnings=false");
            },
            Routes::Availability => {
                url.append("availability/");
                push_app_id(&mut url, project);
            },
            Routes::Clean => {
                url.append("clean/");
                push_app_id(&mut url, project);
            },
        }
        url
    }
}

impl Channel {
    /// The address to subscribe to for this channel.
    pub fn url(self, env: &Vtex) -> (url: String)
        ensures
            url@ == channel_url(self, *env),
    {
        let mut url = String::from_str("https://infra.io.vtex.com/colossus/v0/");
        url.append(env.account.as_str());
        url.append("/");
        url.append(env.workspace.as_str());
        assert(url@ == events_base(*env));
        match self {
            Channel::Build => {
                url.append(
                    "/events?onUnsubscribe=link_interrupted&sender=vtex.builder-hub&keys=build.status",
                );
            },
            Channel::Status => {
                url.append(
                    "/events?onUnsubscribe=link_interrupted&sender=vtex.builder-hub&keys=receive.status",
                );
            },
            Channel::Logs => {
                url.append("/logs?level=debug");
            },
        }
        url
    }
}

} // verus!
