//! The devcontainer workspace: its containers, its environment, the rewriting
//! of service URLs to published host ports, and its textual description.

use vstd::prelude::*;
use crate::container::{Container, PortMapping, PortView, port_views};
use crate::env::{
    Entry, Environment, Variable, applied, variable_text, entries_of, lemma_key_position,
    lemma_key_position_at, lemma_lookup_position,
};
use crate::text::{join, strs};
use crate::urls::{dotted, url_endpoint, url_endpoint_of, url_relocate, url_relocated_of};

verus! {

/// The position of the first container that lists `host` among its hosts.
pub open spec fn container_for_host(containers: Seq<Container>, host: Seq<char>) -> Option<nat>
    decreases containers.len(),
{
    if containers.len() == 0 {
        None
    } else if strs(containers[0].hosts@).contains(host) {
        Some(0)
    } else {
        match container_for_host(containers.drop_first(), host) {
            Some(i) => Some(i + 1),
            None => None,
        }
    }
}

/// The host port of the first mapping of `port` that is published (whose
/// host port is not zero).
pub open spec fn published_port(ports: Seq<PortView>, port: u16) -> Option<u16>
    decreases ports.len(),
{
    if ports.len() == 0 {
        None
    } else if ports[0].0 == port && ports[0].2 != 0 {
        Some(ports[0].2)
    } else {
        published_port(ports.drop_first(), port)
    }
}

/// The host port that a service endpoint reaches: the first published
/// mapping of `port` in the first container that lists `host`.
pub open spec fn host_port_for(containers: Seq<Container>, host: Seq<char>, port: u16) -> Option<
    u16,
> {
    match container_for_host(containers, host) {
        Some(i) => published_port(port_views(containers[i as int].ports@), port),
        None => None,
    }
}

/// The address that rewritten service URLs point at: the IPv4 loopback
/// address 127.0.0.1.
pub open spec fn loopback_octets() -> (u8, u8, u8, u8) {
    (127, 0, 0, 1)
}

/// The loopback address as text.
pub open spec fn loopback_host() -> Seq<char> {
    dotted(loopback_octets())
}

/// The host port that a value's service endpoint reaches, if it is a URL
/// whose endpoint some container publishes.
pub open spec fn relocation_port(containers: Seq<Container>, value: Seq<char>) -> Option<u16> {
    match url_endpoint_of(value) {
        Some((host, port)) => host_port_for(containers, host, port),
        None => None,
    }
}

/// What a variable value becomes: a URL whose host is a host of some
/// container, and whose port that first such container publishes, points at
/// the published port on 127.0.0.1; any other value stays as it is.
pub open spec fn rewritten_value(containers: Seq<Container>, value: Seq<char>) -> Seq<char> {
    match url_endpoint_of(value) {
        Some((host, port)) => match host_port_for(containers, host, port) {
            Some(host_port) => match url_relocated_of(value, loopback_octets(), host_port) {
                Some(text) => text,
                None => value,
            },
            None => value,
        },
        None => value,
    }
}

/// Whether some container lists the loopback address among its hosts.
pub open spec fn lists_loopback(containers: Seq<Container>) -> bool {
    exists|i: int|
        0 <= i < containers.len() && strs(#[trigger] containers[i].hosts@).contains(loopback_host())
}

/// The entries with each value rewritten.
pub open spec fn rewritten(containers: Seq<Container>, entries: Seq<Entry>) -> Seq<Entry> {
    Seq::new(entries.len(), |i: int| (entries[i].0, rewritten_value(containers, entries[i].1)))
}

fn find_container(containers: &Vec<Container>, host: &String) -> (r: Option<usize>)
    ensures
        r matches Some(i) ==> i < containers.len() && container_for_host(containers@, host@)
            == Some(i as nat),
        r is None ==> container_for_host(containers@, host@) is None,
{
    let mut i: usize = 0;
    assert(containers@.skip(0) =~= containers@);
    while i < containers.len()
        invariant
            i <= containers.len(),
            container_for_host(containers@, host@) == match container_for_host(
                containers@.skip(i as int),
                host@,
            ) {
                Some(k) => Some((k + i) as nat),
                None => None,
            },
        decreases containers.len() - i,
    {
        assert(containers@.skip(i as int).drop_first() =~= containers@.skip(i + 1));
        assert(containers@.skip(i as int)[0] == containers@[i as int]);
        let hit = crate::container::contains_string(&containers[i].hosts, host);
        if hit {
            return Some(i);
        }
        i = i + 1;
    }
    assert(containers@.skip(i as int).len() == 0);
    None
}

fn find_published(ports: &Vec<PortMapping>, port: u16) -> (r: Option<u16>)
    ensures
        r == published_port(port_views(ports@), port),
{
    let ghost views = port_views(ports@);
    let mut i: usize = 0;
    assert(views.skip(0) =~= views);
    while i < ports.len()
        invariant
            i <= ports.len(),
            views == port_views(ports@),
            published_port(views, port) == published_port(views.skip(i as int), port),
        decreases ports.len() - i,
    {
        assert(views.skip(i as int).drop_first() =~= views.skip(i + 1));
        assert(views.skip(i as int)[0] == ports@[i as int]@);
        if ports[i].container_port == port && ports[i].host_port != 0 {
            return Some(ports[i].host_port);
        }
        i = i + 1;
    }
    assert(views.skip(i as int).len() == 0);
    None
}

/// The host port that the endpoint `host:port` of a service URL reaches:
/// the first published mapping of `port` in the first container that lists
/// `host`.
pub fn published_host_port(containers: &Vec<Container>, host: &String, port: u16) -> (r: Option<
    u16,
>)
    ensures
        r == host_port_for(containers@, host@, port),
{
    match find_container(containers, host) {
        Some(index) => find_published(&containers[index].ports, port),
        None => None,
    }
}

/// The value rewritten against the containers.
fn rewrite_value(containers: &Vec<Container>, value: &String) -> (r: String)
    ensures
        r@ == rewritten_value(containers@, value@),
        !lists_loopback(containers@) ==> rewritten_value(containers@, r@) == r@,
        r@ != value@ ==> url_endpoint_of(r@) == Some(
            (loopback_host(), relocation_port(containers@, value@)->0),
        ),
{
    let (host, port) = match url_endpoint(value.as_str()) {
        Some(endpoint) => endpoint,
        None => return value.clone(),
    };
    let host_port = match published_host_port(containers, &host, port) {
        Some(p) => p,
        None => return value.clone(),
    };
    let loopback: (u8, u8, u8, u8) = (127, 0, 0, 1);
    match url_relocate(value.as_str(), loopback, host_port) {
        Some(text) => {
            proof {
                lemma_container_for_host(containers@, loopback_host());
                if let Some(i) = container_for_host(containers@, loopback_host()) {
                    assert(strs(containers@[i as int].hosts@).contains(loopback_host()));
                }
            }
            text
        },
        None => value.clone(),
    }
}

/// The text that lists containers: each container's text followed by a line
/// break, but for the last one, which gets it only when `trailing` holds.
pub open spec fn containers_block(texts: Seq<Seq<char>>, trailing: bool) -> Seq<char>
    decreases texts.len(),
{
    if texts.len() == 0 {
        Seq::empty()
    } else {
        containers_block(texts.drop_last(), true) + texts.last() + if trailing {
            "\n"@
        } else {
            Seq::empty()
        }
    }
}

/// One `  KEY = VALUE` line per variable.
pub open spec fn environment_lines(entries: Seq<Entry>) -> Seq<char>
    decreases entries.len(),
{
    if entries.len() == 0 {
        Seq::empty()
    } else {
        environment_lines(entries.drop_last()) + "  "@ + variable_text(entries.last()) + "\n"@
    }
}

/// The text that describes a workspace: its folder, and, where it has
/// containers, the containers separated by blank lines and the environment.
pub open spec fn workspace_text(
    folder: Seq<char>,
    containers: Seq<Seq<char>>,
    environment: Seq<Entry>,
) -> Seq<char> {
    "Workspace: "@ + folder + "\n"@ + if containers.len() > 0 {
        "\n"@ + "Containers:\n"@ + containers_block(containers, environment.len() > 0) + if environment.len() > 0 {
            "Environment:\n"@ + environment_lines(environment)
        } else {
            Seq::empty()
        }
    } else {
        Seq::empty()
    }
}

/// The texts of a list of containers.
pub open spec fn container_texts(containers: Seq<Container>) -> Seq<Seq<char>> {
    containers.map_values(|c: Container| c.text())
}

/// Parsed representation of a `devcontainer.json` configuration file.
pub struct Spec {
    /// Environment variables set inside the container at build/start time.
    pub container_env: Option<Environment>,
}

/// Represents a resolved devcontainer workspace, including its containers and
/// environment.
pub struct Workspace {
    /// Path of the workspace folder.
    pub folder: String,
    /// Path of the devcontainer.json configuration file.
    pub config: String,
    /// Running containers associated with this workspace.
    pub containers: Vec<Container>,
    /// Environment variables exported by the devcontainer services.
    pub environment: Environment,
}

impl Workspace {
    /// The text of this workspace.
    pub open spec fn text(&self) -> Seq<char> {
        workspace_text(self.folder@, container_texts(self.containers@), self.environment@)
    }

    /// Rewrites environment variable values that are URLs referencing a
    /// container host, replacing host and port with the loopback address and
    /// the published host port of that container port.
    pub fn rewrite(self) -> (r: Self)
        ensures
            r.folder == self.folder,
            r.config == self.config,
            r.containers == self.containers,
            r.environment@ == rewritten(self.containers@, self.environment@),
            !lists_loopback(self.containers@) ==> rewritten(r.containers@, r.environment@)
                == r.environment@,
            forall|i: int|
                0 <= i < self.environment@.len() && #[trigger] r.environment@[i].1
                    != self.environment@[i].1 ==> url_endpoint_of(r.environment@[i].1) == Some(
                    (loopback_host(), relocation_port(self.containers@, self.environment@[i].1)->0),
                ),
    {
        let Workspace { folder, config, containers, environment } = self;
        let mut variables: Vec<Variable> = Vec::new();
        let mut i: usize = 0;
        while i < environment.variables.len()
            invariant
                i <= environment.variables.len(),
                entries_of(variables@) =~= rewritten(containers@, environment@).take(i as int),
                !lists_loopback(containers@) ==> forall|j: int|
                    0 <= j < variables.len() ==> rewritten_value(
                        containers@,
                        #[trigger] variables@[j].value@,
                    ) == variables@[j].value@,
                forall|j: int|
                    0 <= j < variables.len() && #[trigger] variables@[j].value@
                        != environment@[j].1 ==> url_endpoint_of(variables@[j].value@) == Some(
                        (loopback_host(), relocation_port(containers@, environment@[j].1)->0),
                    ),
            decreases environment.variables.len() - i,
        {
            let key = environment.variables[i].key.clone();
            let value = rewrite_value(&containers, &environment.variables[i].value);
            let v = Variable { key, value };
            proof {
                let all = rewritten(containers@, environment@);
                assert(entries_of(variables@.push(v)) =~= entries_of(variables@).push(v@));
                assert(all.take(i + 1) =~= all.take(i as int).push(all[i as int]));
            }
            variables.push(v);
            i = i + 1;
        }
        assert(rewritten(containers@, environment@).take(i as int) =~= rewritten(
            containers@,
            environment@,
        ));
        let r = Workspace { folder, config, containers, environment: Environment { variables } };
        proof {
            if !lists_loopback(r.containers@) {
                assert forall|j: int| 0 <= j < r.environment@.len() implies #[trigger] rewritten(
                    r.containers@,
                    r.environment@,
                )[j] == r.environment@[j] by {
                    assert(r.environment@[j] == r.environment.variables@[j]@);
                    assert(rewritten_value(r.containers@, r.environment.variables@[j].value@)
                        == r.environment.variables@[j].value@);
                }
                assert(rewritten(r.containers@, r.environment@) =~= r.environment@);
            }
        }
        r
    }

    /// Renders the workspace: its folder, its containers and its environment.
    pub fn to_string(&self) -> (r: String)
        ensures
            r@ == self.text(),
    {
        let mut out = String::from_str("Workspace: ");
        out.append(self.folder.as_str());
        out.append("\n");
        if self.containers.len() > 0 {
            out.append("\n");
            out.append("Containers:\n");
            let more = self.environment.variables.len() > 0;
            push_containers(&mut out, &self.containers, more);
            if more {
                out.append("Environment:\n");
                push_environment(&mut out, &self.environment);
            }
        }
        out
    }
}

/// Appends the block that lists the containers.
fn push_containers(out: &mut String, containers: &Vec<Container>, trailing: bool)
    requires
        containers.len() > 0,
    ensures
        final(out)@ == old(out)@ + containers_block(container_texts(containers@), trailing),
{
    let n = containers.len();
    let ghost texts = container_texts(containers@);
    let ghost head = out@;
    assert(containers_block(texts.take(0), true) =~= Seq::<char>::empty());
    let mut i: usize = 0;
    while i + 1 < n
        invariant
            i + 1 <= n,
            n == containers.len(),
            texts == container_texts(containers@),
            out@ =~= head + containers_block(texts.take(i as int), true),
        decreases n - i,
    {
        let text = containers[i].to_string();
        out.append(text.as_str());
        out.append("\n");
        assert(texts.take(i + 1).drop_last() =~= texts.take(i as int));
        i = i + 1;
    }
    let text = containers[i].to_string();
    out.append(text.as_str());
    if trailing {
        out.append("\n");
    }
    assert(texts.take(n as int).drop_last() =~= texts.take(i as int));
    assert(texts.take(n as int) =~= texts);
}

/// Appends one `  KEY = VALUE` line per variable.
fn push_environment(out: &mut String, environment: &Environment)
    ensures
        final(out)@ == old(out)@ + environment_lines(environment@),
{
    let ghost entries = environment@;
    let ghost before = out@;
    let mut j: usize = 0;
    assert(entries.take(0) =~= Seq::<Entry>::empty());
    while j < environment.variables.len()
        invariant
            j <= environment.variables.len(),
            entries == environment@,
            out@ =~= before + environment_lines(entries.take(j as int)),
        decreases environment.variables.len() - j,
    {
        out.append("  ");
        let line = environment.variables[j].to_string();
        out.append(line.as_str());
        out.append("\n");
        assert(entries.take(j + 1).drop_last() =~= entries.take(j as int));
        j = j + 1;
    }
    assert(entries.take(j as int) =~= entries);
}

/// The runtime variables of a workspace: those of its first container.
pub open spec fn runtime_entries(containers: Seq<Container>) -> Seq<Entry> {
    if containers.len() > 0 {
        containers[0].environment@
    } else {
        Seq::empty()
    }
}

/// The variables that a configuration declares.
pub open spec fn declared_entries(spec: Spec) -> Seq<Entry> {
    match spec.container_env {
        Some(env) => env@,
        None => Seq::empty(),
    }
}

impl Workspace {
    /// Resolves a workspace from its containers and its configuration: the
    /// declared variables take the runtime values of the first container,
    /// and service URLs are rewritten to published host ports.
    pub fn assemble(folder: String, config: String, containers: Vec<Container>, spec: Spec) -> (r:
        Self)
        ensures
            r.folder == folder,
            r.config == config,
            r.containers@ == containers@,
            r.environment@ == rewritten(
                containers@,
                applied(declared_entries(spec), runtime_entries(containers@)),
            ),
    {
        let runtime = if containers.len() > 0 {
            containers[0].environment.clone()
        } else {
            Environment::new()
        };
        let declared = match spec.container_env {
            Some(env) => env,
            None => Environment::new(),
        };
        let environment = declared.apply(&runtime);
        let workspace = Workspace { folder, config, containers, environment };
        workspace.rewrite()
    }
}

// ---------------------------------------------------------------------------
// Laws
// ---------------------------------------------------------------------------

/// A value that is not a URL with a host and a port stays as it is.
pub proof fn lemma_rewrite_keeps_non_url(containers: Seq<Container>, value: Seq<char>)
    requires
        url_endpoint_of(value) is None,
    ensures
        rewritten_value(containers, value) == value,
{
}

/// The container found for a host is the first one that lists it; none is
/// found exactly when no container lists it.
pub proof fn lemma_container_for_host(containers: Seq<Container>, host: Seq<char>)
    ensures
        container_for_host(containers, host) matches Some(i) ==> i < containers.len() && strs(
            containers[i as int].hosts@,
        ).contains(host) && forall|k: int|
            0 <= k < i ==> !strs(#[trigger] containers[k].hosts@).contains(host),
        container_for_host(containers, host) is None ==> forall|i: int|
            0 <= i < containers.len() ==> !strs(#[trigger] containers[i].hosts@).contains(host),
    decreases containers.len(),
{
    if containers.len() > 0 {
        let rest = containers.drop_first();
        lemma_container_for_host(rest, host);
        if let Some(i) = container_for_host(containers, host) {
            assert forall|k: int| 0 <= k < i implies !strs(
                #[trigger] containers[k].hosts@,
            ).contains(host) by {
                if k > 0 {
                    assert(containers[k] == rest[k - 1]);
                }
            }
        }
        if container_for_host(containers, host) is None {
            assert forall|i: int| 0 <= i < containers.len() implies !strs(
                #[trigger] containers[i].hosts@,
            ).contains(host) by {
                if i > 0 {
                    assert(containers[i] == rest[i - 1]);
                    assert(!strs(rest[i - 1].hosts@).contains(host));
                }
            }
        }
    }
}

/// Where every mapping of a port has host port zero, the port is not
/// published.
pub proof fn lemma_published_port_none(ports: Seq<PortView>, port: u16)
    requires
        forall|j: int| 0 <= j < ports.len() && ports[j].0 == port ==> ports[j].2 == 0,
    ensures
        published_port(ports, port) is None,
    decreases ports.len(),
{
    if ports.len() > 0 {
        assert forall|j: int| 0 <= j < ports.drop_first().len() && ports.drop_first()[j].0
            == port implies ports.drop_first()[j].2 == 0 by {
            assert(ports.drop_first()[j] == ports[j + 1]);
        }
        lemma_published_port_none(ports.drop_first(), port);
    }
}

/// A URL whose host no container lists stays as it is.
pub proof fn lemma_rewrite_keeps_foreign_host(containers: Seq<Container>, value: Seq<char>)
    requires
        url_endpoint_of(value) matches Some((host, port)) && forall|i: int|
            0 <= i < containers.len() ==> !strs(#[trigger] containers[i].hosts@).contains(host),
    ensures
        rewritten_value(containers, value) == value,
{
    let (host, port) = url_endpoint_of(value)->0;
    lemma_container_for_host(containers, host);
    if let Some(i) = container_for_host(containers, host) {
        assert(!strs(containers[i as int].hosts@).contains(host));
    }
}

/// A URL that points at a container port which no container listing its
/// host publishes (each mapping of that port has host port zero) stays as
/// it is.
pub proof fn lemma_rewrite_keeps_unpublished(containers: Seq<Container>, value: Seq<char>)
    requires
        url_endpoint_of(value) matches Some((host, port)) && forall|i: int, j: int|
            #![trigger containers[i].ports@[j]]
            0 <= i < containers.len() && strs(containers[i].hosts@).contains(host) && 0 <= j
                < containers[i].ports@.len() && containers[i].ports@[j].container_port == port
                ==> containers[i].ports@[j].host_port == 0,
    ensures
        rewritten_value(containers, value) == value,
{
    let (host, port) = url_endpoint_of(value)->0;
    lemma_container_for_host(containers, host);
    if let Some(i) = container_for_host(containers, host) {
        let ports = port_views(containers[i as int].ports@);
        assert forall|j: int| 0 <= j < ports.len() && ports[j].0 == port implies ports[j].2
            == 0 by {
            assert(ports[j] == containers[i as int].ports@[j]@);
        }
        lemma_published_port_none(ports, port);
    }
}

/// Rewriting keeps every name, the order and the number of the variables.
pub proof fn lemma_rewrite_keeps_names(containers: Seq<Container>, entries: Seq<Entry>, i: int)
    requires
        0 <= i < entries.len(),
    ensures
        rewritten(containers, entries).len() == entries.len(),
        rewritten(containers, entries)[i].0 == entries[i].0,
{
}

/// The runtime values applied to the declared variables are those of the
/// first container: a declared name that the first container's environment
/// defines takes the value of its first entry there (and is then rewritten
/// like every value), whatever the other containers hold.
pub proof fn lemma_assemble_takes_first_container(
    containers: Seq<Container>,
    declared: Seq<Entry>,
    i: int,
    j: int,
)
    requires
        containers.len() > 0,
        0 <= i < declared.len(),
        0 <= j < containers[0].environment@.len(),
        containers[0].environment@[j].0 == declared[i].0,
        forall|k: int| 0 <= k < j ==> containers[0].environment@[k].0 != declared[i].0,
    ensures
        applied(declared, runtime_entries(containers))[i] == (
            declared[i].0,
            containers[0].environment@[j].1,
        ),
        rewritten(containers, applied(declared, runtime_entries(containers)))[i] == (
            declared[i].0,
            rewritten_value(containers, containers[0].environment@[j].1),
        ),
{
    let env = containers[0].environment@;
    lemma_key_position_at(env, declared[i].0, j);
    lemma_lookup_position(env, declared[i].0);
}

/// A declared variable that the first container does not define keeps its
/// declared value (before rewriting); with no container at all, the declared
/// variables are the environment as they are.
pub proof fn lemma_assemble_keeps_undefined(containers: Seq<Container>, declared: Seq<Entry>, i: int)
    requires
        0 <= i < declared.len(),
        containers.len() > 0 ==> forall|k: int|
            0 <= k < containers[0].environment@.len() ==> containers[0].environment@[k].0
                != declared[i].0,
    ensures
        applied(declared, runtime_entries(containers))[i] == declared[i],
        containers.len() == 0 ==> rewritten(
            containers,
            applied(declared, runtime_entries(containers)),
        ) == declared,
{
    let runtime = runtime_entries(containers);
    lemma_key_position(runtime, declared[i].0);
    lemma_lookup_position(runtime, declared[i].0);
    if containers.len() == 0 {
        assert forall|k: int| 0 <= k < declared.len() implies #[trigger] rewritten(
            containers,
            applied(declared, runtime),
        )[k] == declared[k] by {
            lemma_lookup_position(runtime, declared[k].0);
            lemma_container_for_host(containers, declared[k].1);
        }
        assert(rewritten(containers, applied(declared, runtime)) =~= declared);
    }
}

/// The applied runtime values depend on the first container alone: the
/// containers after it change none of them.
pub proof fn lemma_assemble_ignores_later_containers(
    containers: Seq<Container>,
    declared: Seq<Entry>,
)
    requires
        containers.len() > 0,
    ensures
        applied(declared, runtime_entries(containers)) == applied(
            declared,
            runtime_entries(seq![containers[0]]),
        ),
{
    assert(applied(declared, runtime_entries(containers)) =~= applied(
        declared,
        runtime_entries(seq![containers[0]]),
    ));
}

/// The container block is the containers' texts joined by line breaks, with
/// a line break after the last one exactly when `trailing` holds: every
/// container's text is there, once and in order.
pub proof fn lemma_containers_block_joins(texts: Seq<Seq<char>>, trailing: bool)
    requires
        texts.len() > 0,
    ensures
        containers_block(texts, trailing) == join(texts, "\n"@) + if trailing {
            "\n"@
        } else {
            Seq::<char>::empty()
        },
    decreases texts.len(),
{
    let tail: Seq<char> = if trailing {
        "\n"@
    } else {
        Seq::<char>::empty()
    };
    if texts.len() == 1 {
        assert(containers_block(texts.drop_last(), true) =~= Seq::<char>::empty());
        assert(containers_block(texts, trailing) =~= texts.last() + tail);
    } else {
        lemma_containers_block_joins(texts.drop_last(), true);
        assert(containers_block(texts, trailing) =~= join(texts.drop_last(), "\n"@) + "\n"@
            + texts.last() + tail);
    }
}

/// The text of a workspace with containers: its header, a blank line, every
/// container's text in order with line breaks between them, and then, when
/// there are variables, a line break and the environment section.
pub proof fn lemma_workspace_text_lists_containers(
    folder: Seq<char>,
    containers: Seq<Seq<char>>,
    environment: Seq<Entry>,
)
    requires
        containers.len() > 0,
    ensures
        workspace_text(folder, containers, environment) == "Workspace: "@ + folder + "\n"@ + "\n"@
            + "Containers:\n"@ + join(containers, "\n"@) + if environment.len() > 0 {
            "\n"@ + "Environment:\n"@ + environment_lines(environment)
        } else {
            Seq::<char>::empty()
        },
{
    lemma_containers_block_joins(containers, environment.len() > 0);
    let j = join(containers, "\n"@);
    if environment.len() > 0 {
        assert(workspace_text(folder, containers, environment) =~= "Workspace: "@ + folder
            + "\n"@ + "\n"@ + "Containers:\n"@ + j + ("\n"@ + "Environment:\n"@
            + environment_lines(environment)));
    } else {
        assert(workspace_text(folder, containers, environment) =~= "Workspace: "@ + folder
            + "\n"@ + "\n"@ + "Containers:\n"@ + j + Seq::<char>::empty());
    }
}

/// The text of a workspace without containers is its header line alone.
pub proof fn lemma_workspace_text_without_containers(
    folder: Seq<char>,
    environment: Seq<Entry>,
)
    ensures
        workspace_text(folder, Seq::empty(), environment) == "Workspace: "@ + folder + "\n"@,
{
    assert(workspace_text(folder, Seq::empty(), environment) =~= "Workspace: "@ + folder + "\n"@);
}

/// The environment section of two lists of variables is the section of each,
/// one after the other: no variable is dropped, repeated or reordered.
pub proof fn lemma_environment_lines_concat(a: Seq<Entry>, b: Seq<Entry>)
    ensures
        environment_lines(a + b) == environment_lines(a) + environment_lines(b),
    decreases b.len(),
{
    if b.len() == 0 {
        assert(a + b =~= a);
        assert(environment_lines(a) + environment_lines(b) =~= environment_lines(a));
    } else {
        lemma_environment_lines_concat(a, b.drop_last());
        assert((a + b).drop_last() =~= a + b.drop_last());
        assert((a + b).last() == b.last());
        assert(environment_lines(a + b) =~= environment_lines(a) + environment_lines(b.drop_last())
            + "  "@ + variable_text(b.last()) + "\n"@);
    }
}

/// A single variable is the one line `  KEY = VALUE` of the environment
/// section.
pub proof fn lemma_environment_lines_single(e: Entry)
    ensures
        environment_lines(seq![e]) == "  "@ + variable_text(e) + "\n"@,
{
    assert(seq![e].drop_last() =~= Seq::<Entry>::empty());
    assert(seq![e].last() == e);
    assert(environment_lines(Seq::<Entry>::empty()) =~= Seq::<char>::empty());
    assert(environment_lines(seq![e]) =~= "  "@ + variable_text(e) + "\n"@);
}

/// The first mapping of a port with a host port other than zero gives the
/// published host port.
pub proof fn lemma_published_port_at(ports: Seq<PortView>, port: u16, j: int)
    requires
        0 <= j < ports.len(),
        ports[j].0 == port,
        ports[j].2 != 0,
        forall|k: int| 0 <= k < j ==> !(ports[k].0 == port && ports[k].2 != 0),
    ensures
        published_port(ports, port) == Some(ports[j].2),
    decreases j,
{
    if j > 0 {
        let rest = ports.drop_first();
        assert forall|k: int| 0 <= k < j - 1 implies !(rest[k].0 == port && rest[k].2 != 0) by {
            assert(rest[k] == ports[k + 1]);
        }
        assert(rest[j - 1] == ports[j]);
        lemma_published_port_at(rest, port, j - 1);
    }
}

/// A URL whose host the container at `i` is the first to list, and whose
/// port that container publishes first in its mapping at `j`, is rewritten
/// to point at that host port on 127.0.0.1 (where the URL can be relocated).
pub proof fn lemma_rewrite_relocates(containers: Seq<Container>, value: Seq<char>, i: int, j: int)
    requires
        url_endpoint_of(value) is Some,
        0 <= i < containers.len(),
        strs(containers[i].hosts@).contains((url_endpoint_of(value)->0).0),
        forall|k: int|
            0 <= k < i ==> !strs(#[trigger] containers[k].hosts@).contains(
                (url_endpoint_of(value)->0).0,
            ),
        0 <= j < containers[i].ports@.len(),
        containers[i].ports@[j].container_port == (url_endpoint_of(value)->0).1,
        containers[i].ports@[j].host_port != 0,
        forall|k: int|
            0 <= k < j ==> !(#[trigger] containers[i].ports@[k].container_port == (url_endpoint_of(
                value,
            )->0).1 && containers[i].ports@[k].host_port != 0),
        url_relocated_of(value, loopback_octets(), containers[i].ports@[j].host_port) is Some,
    ensures
        rewritten_value(containers, value) == url_relocated_of(
            value,
            loopback_octets(),
            containers[i].ports@[j].host_port,
        )->0,
{
    let (host, port) = url_endpoint_of(value)->0;
    lemma_container_for_host(containers, host);
    match container_for_host(containers, host) {
        Some(c) => {
            if c < i {
                assert(!strs(containers[c as int].hosts@).contains(host));
            } else if c > i {
                assert(!strs(containers[i].hosts@).contains(host));
            }
        },
        None => {
            assert(!strs(containers[i].hosts@).contains(host));
        },
    }
    let ports = port_views(containers[i].ports@);
    assert forall|k: int| 0 <= k < j implies !(ports[k].0 == port && ports[k].2 != 0) by {
        assert(ports[k] == containers[i].ports@[k]@);
    }
    assert(ports[j] == containers[i].ports@[j]@);
    lemma_published_port_at(ports, port, j);
}

} // verus!
