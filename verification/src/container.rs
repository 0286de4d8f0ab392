//! Containers of a devcontainer workspace and their port mappings, built from
//! what the Docker daemon reports about a container.

use vstd::prelude::*;
use crate::env::{
    Environment, Entry, lookup, pair_views, parse_lines,
    lemma_lookup_position,
};
use crate::text::{
    decimal, join, join_strings, parse_u16, parsed_u16, push_decimal, split_first,
    split_once_char, strip_leading, strs, trim_start_char, lemma_strs_push,
};

verus! {

/// A port mapping as plain values: container port, host IP, host port,
/// protocol.
pub type PortView = (u16, Seq<char>, u16, Seq<char>);

/// Describes a single port mapping between a container port and a host port.
pub struct PortMapping {
    /// Port number inside the container.
    pub container_port: u16,
    /// Corresponding IP address on the host.
    pub host_ip: String,
    /// Corresponding port number on the host.
    pub host_port: u16,
    /// Transport protocol (e.g. `"tcp"` or `"udp"`).
    pub protocol: String,
}

impl View for PortMapping {
    type V = PortView;

    open spec fn view(&self) -> PortView {
        (self.container_port, self.host_ip@, self.host_port, self.protocol@)
    }
}

/// The views of a list of port mappings.
pub open spec fn port_views(ports: Seq<PortMapping>) -> Seq<PortView> {
    ports.map_values(|p: PortMapping| p@)
}

/// The text of a port mapping: `CONTAINER → HOST_IP:HOST_PORT`.
pub open spec fn port_text(p: PortView) -> Seq<char> {
    decimal(p.0 as nat) + " \u{2192} "@ + p.1 + ":"@ + decimal(p.2 as nat)
}

/// A string's view, or the empty text when there is none.
pub open spec fn text_or_empty(s: Option<String>) -> Seq<char> {
    match s {
        Some(s) => s@,
        None => Seq::empty(),
    }
}

/// The value of a parsed port number, or zero.
pub open spec fn port_or_zero(p: Option<u16>) -> u16 {
    match p {
        Some(p) => p,
        None => 0,
    }
}

fn string_or_empty(s: Option<String>) -> (r: String)
    ensures
        r@ == text_or_empty(s),
{
    match s {
        Some(s) => s,
        None => String::new(),
    }
}

/// The Docker API's name for TCP, the protocol of a port whose type is not
/// reported.
pub open spec fn tcp() -> Seq<char> {
    "tcp"@
}

/// What the Docker daemon's container listing reports about one port.
pub struct PortSummaryRecord {
    /// Host IP address that the container's port is mapped to.
    pub ip: Option<String>,
    /// Port exposed on the host.
    pub public_port: Option<u16>,
    /// Port on the container.
    pub private_port: u16,
    /// Transport protocol, as the Docker API names it.
    pub protocol: Option<String>,
}

/// The port mapping that a port summary describes.
pub open spec fn summary_port(r: PortSummaryRecord) -> PortView {
    (
        r.private_port,
        text_or_empty(r.ip),
        port_or_zero(r.public_port),
        match r.protocol {
            Some(p) => p@,
            None => tcp(),
        },
    )
}

impl PortMapping {
    /// Renders the mapping as `CONTAINER → HOST_IP:HOST_PORT`.
    pub fn to_string(&self) -> (r: String)
        ensures
            r@ == port_text(self@),
    {
        let mut out = String::new();
        push_decimal(&mut out, self.container_port);
        out.append(" \u{2192} ");
        out.append(self.host_ip.as_str());
        out.append(":");
        push_decimal(&mut out, self.host_port);
        out
    }

    /// The mapping that a port summary describes; an absent host IP or host
    /// port is empty or zero, an absent protocol is TCP.
    pub fn from_summary(summary: PortSummaryRecord) -> (r: Self)
        ensures
            r@ == summary_port(summary),
    {
        let protocol = match summary.protocol {
            Some(p) => p,
            None => String::from_str("tcp"),
        };
        PortMapping {
            host_ip: string_or_empty(summary.ip),
            host_port: match summary.public_port {
                Some(p) => p,
                None => 0,
            },
            container_port: summary.private_port,
            protocol,
        }
    }
}

/// What the Docker daemon's inspection reports about one binding of a port.
pub struct PortBindingRecord {
    /// Host IP address that the container's port is mapped to.
    pub host_ip: Option<String>,
    /// Host port number, as text.
    pub host_port: Option<String>,
}

/// One entry of the port map: a key such as `80/tcp` and its bindings.
pub type PortMapEntry = (String, Option<Vec<PortBindingRecord>>);

/// The container port and protocol that a port map key `PORT/PROTO` names;
/// a key without `/` is taken as a TCP port.
pub open spec fn port_key(key: Seq<char>) -> (u16, Seq<char>) {
    let (port, proto) = match split_first(key, '/') {
        Some(parts) => parts,
        None => (key, tcp()),
    };
    (port_or_zero(parsed_u16(port)), proto)
}

/// The mapping that one binding of a port gives.
pub open spec fn binding_port(key: (u16, Seq<char>), b: PortBindingRecord) -> PortView {
    (
        key.0,
        text_or_empty(b.host_ip),
        match b.host_port {
            Some(p) => port_or_zero(parsed_u16(p@)),
            None => 0,
        },
        key.1,
    )
}

/// The mappings that one entry of the port map gives, one per binding.
pub open spec fn entry_ports(e: PortMapEntry) -> Seq<PortView> {
    match e.1 {
        Some(bindings) => bindings@.map_values(|b: PortBindingRecord| binding_port(port_key(e.0@), b)),
        None => Seq::empty(),
    }
}

/// The mappings of all entries of the port map, in order.
pub open spec fn map_ports(entries: Seq<PortMapEntry>) -> Seq<PortView>
    decreases entries.len(),
{
    if entries.len() == 0 {
        Seq::empty()
    } else {
        map_ports(entries.drop_last()) + entry_ports(entries.last())
    }
}

/// The DNS names of all networks, in order.
pub open spec fn network_names(networks: Seq<Option<Vec<String>>>) -> Seq<Seq<char>>
    decreases networks.len(),
{
    if networks.len() == 0 {
        Seq::empty()
    } else {
        network_names(networks.drop_last()) + match networks.last() {
            Some(names) => strs(names@),
            None => Seq::empty(),
        }
    }
}

/// The label that Docker Compose gives a container: its service name.
pub open spec fn service_label() -> Seq<char> {
    "com.docker.compose.service"@
}

/// The hosts with the service name in front, unless it is already among them.
pub open spec fn with_service(hosts: Seq<Seq<char>>, service: Option<Seq<char>>) -> Seq<Seq<char>> {
    match service {
        Some(name) => if hosts.contains(name) {
            hosts
        } else {
            seq![name] + hosts
        },
        None => hosts,
    }
}

/// The compose service that a label list names, if any.
pub open spec fn service_of(labels: Option<Vec<(String, String)>>) -> Option<Seq<char>> {
    match labels {
        Some(labels) => lookup(pair_views(labels@), service_label()),
        None => None,
    }
}

/// What the Docker daemon's container listing reports about a container.
pub struct ContainerSummaryRecord {
    /// The container ID.
    pub id: Option<String>,
    /// The container names.
    pub names: Option<Vec<String>>,
    /// The image name.
    pub image: Option<String>,
    /// The DNS names of each network that the container is attached to.
    pub networks: Vec<Option<Vec<String>>>,
    /// The port summaries.
    pub ports: Option<Vec<PortSummaryRecord>>,
    /// The container labels as name-value pairs.
    pub labels: Option<Vec<(String, String)>>,
}

/// What the Docker daemon reports about a container's configuration.
pub struct ContainerConfigRecord {
    /// The image name.
    pub image: Option<String>,
    /// The environment as `KEY=VALUE` lines.
    pub env: Option<Vec<String>>,
    /// The container labels as name-value pairs.
    pub labels: Option<Vec<(String, String)>>,
}

/// What the Docker daemon's inspection reports about a container.
pub struct ContainerInspectRecord {
    /// The container ID.
    pub id: Option<String>,
    /// The container name, with Docker's leading `/`.
    pub name: Option<String>,
    /// The container configuration.
    pub config: Option<ContainerConfigRecord>,
    /// The DNS names of each network that the container is attached to.
    pub networks: Option<Vec<Option<Vec<String>>>>,
    /// The port map: each `PORT/PROTO` key with its bindings.
    pub ports: Option<Vec<PortMapEntry>>,
}

/// Represents a running Docker container within the devcontainer workspace.
pub struct Container {
    /// Unique container ID.
    pub id: String,
    /// Container names.
    pub names: Vec<String>,
    /// Image name used to create the container.
    pub image: String,
    /// Container host list.
    pub hosts: Vec<String>,
    /// Port mappings exposed by this container.
    pub ports: Vec<PortMapping>,
    /// Environment variables set in the container.
    pub environment: Environment,
}

/// The text that describes a container: its names (without leading `/`),
/// its image, and its hosts and ports where it has any.
pub open spec fn container_text(
    names: Seq<Seq<char>>,
    image: Seq<char>,
    hosts: Seq<Seq<char>>,
    ports: Seq<PortView>,
) -> Seq<char> {
    "  "@ + join(names.map_values(|n: Seq<char>| strip_leading(n, '/')), ", "@) + "\n"@
        + "    Image: "@ + image + "\n"@ + (if hosts.len() > 0 {
        "    Hosts: "@ + join(hosts, ", "@) + "\n"@
    } else {
        Seq::empty()
    }) + (if ports.len() > 0 {
        "    Ports: "@ + join(ports.map_values(|p: PortView| port_text(p)), ", "@) + "\n"@
    } else {
        Seq::empty()
    })
}

impl Container {
    /// The text of this container.
    pub open spec fn text(&self) -> Seq<char> {
        container_text(strs(self.names@), self.image@, strs(self.hosts@), port_views(self.ports@))
    }

    /// Renders the container: names, image, hosts and ports, one per line.
    pub fn to_string(&self) -> (r: String)
        ensures
            r@ == self.text(),
    {
        let ghost names = strs(self.names@);
        let mut trimmed: Vec<String> = Vec::new();
        let mut i: usize = 0;
        while i < self.names.len()
            invariant
                i <= self.names.len(),
                names == strs(self.names@),
                strs(trimmed@) =~= names.map_values(|n: Seq<char>| strip_leading(n, '/')).take(
                    i as int,
                ),
            decreases self.names.len() - i,
        {
            let t = trim_start_char(self.names[i].as_str(), '/');
            proof {
                lemma_strs_push(trimmed@, t);
                let all = names.map_values(|n: Seq<char>| strip_leading(n, '/'));
                assert(all.take(i + 1) =~= all.take(i as int).push(all[i as int]));
            }
            trimmed.push(t);
            i = i + 1;
        }
        assert(names.map_values(|n: Seq<char>| strip_leading(n, '/')).take(i as int)
            =~= names.map_values(|n: Seq<char>| strip_leading(n, '/')));
        let mut out = String::from_str("  ");
        let joined = join_strings(&trimmed, ", ");
        out.append(joined.as_str());
        out.append("\n");
        out.append("    Image: ");
        out.append(self.image.as_str());
        out.append("\n");
        let ghost head = out@;
        if self.hosts.len() > 0 {
            out.append("    Hosts: ");
            let hosts = join_strings(&self.hosts, ", ");
            out.append(hosts.as_str());
            out.append("\n");
        }
        let ghost with_hosts = out@;
        if self.ports.len() > 0 {
            let mut texts: Vec<String> = Vec::new();
            let ghost ports = port_views(self.ports@);
            let mut j: usize = 0;
            while j < self.ports.len()
                invariant
                    j <= self.ports.len(),
                    ports == port_views(self.ports@),
                    strs(texts@) =~= ports.map_values(|p: PortView| port_text(p)).take(j as int),
                decreases self.ports.len() - j,
            {
                let t = self.ports[j].to_string();
                proof {
                    lemma_strs_push(texts@, t);
                    let all = ports.map_values(|p: PortView| port_text(p));
                    assert(all.take(j + 1) =~= all.take(j as int).push(all[j as int]));
                }
                texts.push(t);
                j = j + 1;
            }
            assert(ports.map_values(|p: PortView| port_text(p)).take(j as int) =~= ports.map_values(
                |p: PortView| port_text(p),
            ));
            out.append("    Ports: ");
            let joined_ports = join_strings(&texts, ", ");
            out.append(joined_ports.as_str());
            out.append("\n");
        }
        assert(out@ =~= self.text());
        out
    }
}

/// Whether some string of `v` equals `s`.
pub(crate) fn contains_string(v: &Vec<String>, s: &String) -> (r: bool)
    ensures
        r == strs(v@).contains(s@),
{
    let mut i: usize = 0;
    while i < v.len()
        invariant
            i <= v.len(),
            forall|j: int| 0 <= j < i ==> strs(v@)[j] != s@,
        decreases v.len() - i,
    {
        if v[i] == *s {
            assert(strs(v@)[i as int] == s@);
            return true;
        }
        i = i + 1;
    }
    false
}

/// All DNS names of all networks, in order.
fn flatten_networks(networks: &Vec<Option<Vec<String>>>) -> (r: Vec<String>)
    ensures
        strs(r@) == network_names(networks@),
{
    let mut out: Vec<String> = Vec::new();
    let mut i: usize = 0;
    while i < networks.len()
        invariant
            i <= networks.len(),
            strs(out@) =~= network_names(networks@.take(i as int)),
        decreases networks.len() - i,
    {
        assert(networks@.take(i + 1).drop_last() =~= networks@.take(i as int));
        let ghost before = strs(out@);
        match &networks[i] {
            Some(names) => {
                let mut j: usize = 0;
                while j < names.len()
                    invariant
                        j <= names.len(),
                        strs(out@) =~= before + strs(names@).take(j as int),
                    decreases names.len() - j,
                {
                    let name = names[j].clone();
                    proof {
                        lemma_strs_push(out@, name);
                        assert(strs(names@).take(j + 1) =~= strs(names@).take(j as int).push(
                            names@[j as int]@,
                        ));
                    }
                    out.push(name);
                    j = j + 1;
                }
                assert(strs(names@).take(j as int) =~= strs(names@));
            },
            None => {},
        }
        i = i + 1;
    }
    assert(networks@.take(i as int) =~= networks@);
    out
}

/// The compose service that a label list names.
fn service_name(labels: &Option<Vec<(String, String)>>) -> (r: Option<String>)
    ensures
        r matches Some(s) ==> service_of(*labels) == Some(s@),
        r is None ==> service_of(*labels) is None,
{
    match labels {
        Some(pairs) => {
            let key = String::from_str("com.docker.compose.service");
            proof {
                lemma_lookup_position(pair_views(pairs@), key@);
            }
            match crate::env::position_of_key(pairs, &key) {
                Some(j) => {
                    assert(pair_views(pairs@)[j as int] == (pairs@[j as int].0@, pairs@[j as int].1@));
                    Some(pairs[j].1.clone())
                },
                None => None,
            }
        },
        None => None,
    }
}

/// The hosts with the service name in front, unless already among them.
fn add_service(hosts: Vec<String>, service: Option<String>) -> (r: Vec<String>)
    ensures
        strs(r@) == with_service(strs(hosts@), match service {
            Some(s) => Some(s@),
            None => None,
        }),
{
    let mut hosts = hosts;
    match service {
        Some(name) => {
            if !contains_string(&hosts, &name) {
                let ghost before = hosts@;
                hosts.insert(0, name);
                assert(strs(hosts@) =~= seq![name@] + strs(before));
            }
        },
        None => {},
    }
    hosts
}

/// The mappings that a list of port summaries describes.
fn summary_ports(ports: Option<Vec<PortSummaryRecord>>) -> (r: Vec<PortMapping>)
    ensures
        port_views(r@) == match ports {
            Some(v) => v@.map_values(|s: PortSummaryRecord| summary_port(s)),
            None => Seq::<PortView>::empty(),
        },
{
    let mut out: Vec<PortMapping> = Vec::new();
    match ports {
        Some(v) => {
            let ghost all = v@.map_values(|s: PortSummaryRecord| summary_port(s));
            let ghost n = v.len();
            let mut v = v;
            while v.len() > 0
                invariant
                    out.len() + v.len() == n,
                    all.len() == n,
                    forall|k: int| 0 <= k < v.len() ==> summary_port(#[trigger] v@[k]) == all[out.len() + k],
                    port_views(out@) =~= all.take(out.len() as int),
                decreases v.len(),
            {
                let ghost before = v@;
                let s = v.remove(0);
                assert(summary_port(before[0]) == all[out.len() as int]);
                assert forall|k: int| 0 <= k < v.len() implies summary_port(#[trigger] v@[k])
                    == all[out.len() + 1 + k] by {
                    assert(v@[k] == before[k + 1]);
                }
                let p = PortMapping::from_summary(s);
                let ghost prev_len = out.len();
                out.push(p);
                assert(all.take(prev_len + 1) =~= all.take(prev_len as int).push(all[prev_len as int]));
            }
            assert(all.take(out.len() as int) =~= all);
            out
        },
        None => out,
    }
}

fn text_of(s: &Option<String>) -> (r: String)
    ensures
        r@ == text_or_empty(*s),
{
    match s {
        Some(s) => s.clone(),
        None => String::new(),
    }
}

/// The container port and protocol that a port map key names.
fn split_port_key(key: &String) -> (r: (u16, String))
    ensures
        (r.0, r.1@) == port_key(key@),
{
    let (port, proto) = match split_once_char(key.as_str(), '/') {
        Some(parts) => parts,
        None => (key.clone(), String::from_str("tcp")),
    };
    let number = match parse_u16(port.as_str()) {
        Some(n) => n,
        None => 0,
    };
    (number, proto)
}

/// The mappings that the port map of an inspection gives.
fn inspect_ports(entries: &Vec<PortMapEntry>) -> (r: Vec<PortMapping>)
    ensures
        port_views(r@) == map_ports(entries@),
{
    let mut out: Vec<PortMapping> = Vec::new();
    let mut i: usize = 0;
    while i < entries.len()
        invariant
            i <= entries.len(),
            port_views(out@) =~= map_ports(entries@.take(i as int)),
        decreases entries.len() - i,
    {
        assert(entries@.take(i + 1).drop_last() =~= entries@.take(i as int));
        let ghost before = port_views(out@);
        let (container_port, protocol) = split_port_key(&entries[i].0);
        match &entries[i].1 {
            Some(bindings) => {
                let ghost all = bindings@.map_values(
                    |b: PortBindingRecord| binding_port(port_key(entries@[i as int].0@), b),
                );
                let mut j: usize = 0;
                while j < bindings.len()
                    invariant
                        j <= bindings.len(),
                        (container_port, protocol@) == port_key(entries@[i as int].0@),
                        all == bindings@.map_values(
                            |b: PortBindingRecord| binding_port(port_key(entries@[i as int].0@), b),
                        ),
                        port_views(out@) =~= before + all.take(j as int),
                    decreases bindings.len() - j,
                {
                    let b = &bindings[j];
                    let host_port = match &b.host_port {
                        Some(p) => match parse_u16(p.as_str()) {
                            Some(n) => n,
                            None => 0,
                        },
                        None => 0,
                    };
                    let mapping = PortMapping {
                        container_port,
                        host_ip: text_of(&b.host_ip),
                        host_port,
                        protocol: protocol.clone(),
                    };
                    assert(mapping@ == all[j as int]);
                    assert(port_views(out@.push(mapping)) =~= port_views(out@).push(mapping@));
                    assert(all.take(j + 1) =~= all.take(j as int).push(all[j as int]));
                    out.push(mapping);
                    j = j + 1;
                }
                assert(all.take(j as int) =~= all);
            },
            None => {},
        }
        i = i + 1;
    }
    assert(entries@.take(i as int) =~= entries@);
    out
}

impl ContainerSummaryRecord {
    /// The hosts of the summarized container: the DNS names of its networks,
    /// with its compose service in front.
    pub open spec fn hosts(self) -> Seq<Seq<char>> {
        with_service(network_names(self.networks@), service_of(self.labels))
    }

    /// The port mappings of the summarized container.
    pub open spec fn port_list(self) -> Seq<PortView> {
        match self.ports {
            Some(v) => v@.map_values(|s: PortSummaryRecord| summary_port(s)),
            None => Seq::empty(),
        }
    }
}

impl ContainerInspectRecord {
    /// The image name, or the empty text.
    pub open spec fn image_text(self) -> Seq<char> {
        match self.config {
            Some(c) => text_or_empty(c.image),
            None => Seq::empty(),
        }
    }

    /// The environment lines.
    pub open spec fn env_lines(self) -> Seq<Seq<char>> {
        match self.config {
            Some(c) => match c.env {
                Some(e) => strs(e@),
                None => Seq::empty(),
            },
            None => Seq::empty(),
        }
    }

    /// The names: the inspected name without its leading `/`, if any.
    pub open spec fn name_list(self) -> Seq<Seq<char>> {
        match self.name {
            Some(n) => seq![strip_leading(n@, '/')],
            None => Seq::empty(),
        }
    }

    /// The hosts: the DNS names of the networks, with the compose service in
    /// front.
    pub open spec fn hosts(self) -> Seq<Seq<char>> {
        with_service(
            match self.networks {
                Some(n) => network_names(n@),
                None => Seq::empty(),
            },
            match self.config {
                Some(c) => service_of(c.labels),
                None => None,
            },
        )
    }

    /// The port mappings: one per binding of each port map entry.
    pub open spec fn port_list(self) -> Seq<PortView> {
        match self.ports {
            Some(p) => map_ports(p@),
            None => Seq::empty(),
        }
    }
}

impl Container {
    /// The container that a listing summary describes; it has no
    /// environment.
    pub fn from_summary(summary: ContainerSummaryRecord) -> (r: Self)
        requires
            summary.id is Some,
            summary.names is Some,
            summary.image is Some,
        ensures
            r.id@ == summary.id->0@,
            strs(r.names@) == strs(summary.names->0@),
            r.image@ == summary.image->0@,
            strs(r.hosts@) == summary.hosts(),
            port_views(r.ports@) == summary.port_list(),
            r.environment@ == Seq::<Entry>::empty(),
    {
        let ghost s = summary;
        let hosts = flatten_networks(&summary.networks);
        let service = service_name(&summary.labels);
        let hosts = add_service(hosts, service);
        let ports = summary_ports(summary.ports);
        let id = match summary.id {
            Some(id) => id,
            None => String::new(),
        };
        let names = match summary.names {
            Some(names) => names,
            None => Vec::new(),
        };
        let image = match summary.image {
            Some(image) => image,
            None => String::new(),
        };
        Container { id, names, image, hosts, ports, environment: Environment::new() }
    }

    /// The container that an inspection describes: absent fields are empty,
    /// the name loses its leading `/`, the environment is parsed from the
    /// configuration, and the compose service leads the hosts.
    pub fn from_inspect(record: ContainerInspectRecord) -> (r: Self)
        ensures
            r.id@ == text_or_empty(record.id),
            strs(r.names@) == record.name_list(),
            r.image@ == record.image_text(),
            r.environment@ == parse_lines(record.env_lines()),
            strs(r.hosts@) == record.hosts(),
            port_views(r.ports@) == record.port_list(),
    {
        let id = text_of(&record.id);
        let mut names: Vec<String> = Vec::new();
        match &record.name {
            Some(n) => {
                names.push(trim_start_char(n.as_str(), '/'));
            },
            None => {},
        }
        assert(strs(names@) =~= record.name_list());
        let (image, environment, service) = match &record.config {
            Some(c) => {
                let lines = match &c.env {
                    Some(e) => e.clone(),
                    None => Vec::new(),
                };
                assert(strs(lines@) =~= record.env_lines());
                (text_of(&c.image), Environment::from_lines(lines), service_name(&c.labels))
            },
            None => {
                let lines: Vec<String> = Vec::new();
                assert(strs(lines@) =~= record.env_lines());
                (String::new(), Environment::from_lines(lines), None)
            },
        };
        let hosts = match &record.networks {
            Some(n) => flatten_networks(n),
            None => Vec::new(),
        };
        let hosts = add_service(hosts, service);
        let ports = match &record.ports {
            Some(p) => inspect_ports(p),
            None => Vec::new(),
        };
        assert(port_views(ports@) =~= record.port_list());
        Container { id, names, image, hosts, ports, environment }
    }
}

/// The compose service is always among the hosts; it leads them unless it
/// was already listed, and no other host is added or lost.
pub proof fn lemma_service_leads_hosts(hosts: Seq<Seq<char>>, name: Seq<char>)
    ensures
        with_service(hosts, Some(name)).contains(name),
        !hosts.contains(name) ==> with_service(hosts, Some(name))[0] == name
            && with_service(hosts, Some(name)).drop_first() == hosts,
        hosts.contains(name) ==> with_service(hosts, Some(name)) == hosts,
{
    if !hosts.contains(name) {
        let r = seq![name] + hosts;
        assert(r[0] == name);
        assert(r.drop_first() =~= hosts);
    }
}

/// A summarized container has one port mapping per port summary, in order:
/// the k-th mapping is the one that the k-th summary describes; without
/// summaries it has none.
pub proof fn lemma_summary_ports_one_per_summary(summary: ContainerSummaryRecord, k: int)
    ensures
        summary.ports is None ==> summary.port_list().len() == 0,
        summary.ports matches Some(v) ==> summary.port_list().len() == v@.len(),
        summary.ports is Some && 0 <= k < summary.ports->0@.len() ==> summary.port_list()[k]
            == summary_port(summary.ports->0@[k]),
{
}

/// The DNS names of networks listed one after the other are the names of
/// each, one after the other: no name is dropped, repeated or reordered.
pub proof fn lemma_network_names_concat(
    a: Seq<Option<Vec<String>>>,
    b: Seq<Option<Vec<String>>>,
)
    ensures
        network_names(a + b) == network_names(a) + network_names(b),
    decreases b.len(),
{
    if b.len() == 0 {
        assert(a + b =~= a);
        assert(network_names(a) + network_names(b) =~= network_names(a));
    } else {
        lemma_network_names_concat(a, b.drop_last());
        assert((a + b).drop_last() =~= a + b.drop_last());
        assert((a + b).last() == b.last());
        let last = match b.last() {
            Some(names) => strs(names@),
            None => Seq::<Seq<char>>::empty(),
        };
        assert(network_names(a + b) =~= network_names(a) + network_names(b.drop_last()) + last);
    }
}

/// The DNS names of one network are its names, in order; a network that
/// reports none gives none.
pub proof fn lemma_network_names_single(n: Option<Vec<String>>)
    ensures
        network_names(seq![n]) == match n {
            Some(names) => strs(names@),
            None => Seq::<Seq<char>>::empty(),
        },
{
    assert(seq![n].drop_last() =~= Seq::<Option<Vec<String>>>::empty());
    assert(seq![n].last() == n);
    let own = match n {
        Some(names) => strs(names@),
        None => Seq::<Seq<char>>::empty(),
    };
    assert(network_names(Seq::<Option<Vec<String>>>::empty()) =~= Seq::<Seq<char>>::empty());
    assert(Seq::<Seq<char>>::empty() + own =~= own);
    assert(network_names(seq![n]) =~= match n {
        Some(names) => strs(names@),
        None => Seq::<Seq<char>>::empty(),
    });
}

/// Every DNS name of every network is among the networks' names.
pub proof fn lemma_network_names_contains(networks: Seq<Option<Vec<String>>>, k: int, m: int)
    requires
        0 <= k < networks.len(),
        networks[k] is Some,
        0 <= m < networks[k]->0@.len(),
    ensures
        network_names(networks).contains(networks[k]->0@[m]@),
{
    let names = networks[k]->0;
    let head = networks.take(k);
    let tail = networks.skip(k + 1);
    assert(networks =~= head + (seq![networks[k]] + tail));
    lemma_network_names_concat(head, seq![networks[k]] + tail);
    lemma_network_names_concat(seq![networks[k]], tail);
    lemma_network_names_single(networks[k]);
    let all = network_names(networks);
    let at = network_names(head).len() + m;
    assert(all == network_names(head) + (strs(names@) + network_names(tail)));
    assert(all[at] == names@[m]@);
}

/// Every DNS name of every network of an inspected container is among its
/// hosts, whatever its labels.
pub proof fn lemma_inspect_hosts_keep_dns_names(record: ContainerInspectRecord, k: int, m: int)
    requires
        record.networks is Some,
        0 <= k < record.networks->0@.len(),
        record.networks->0@[k] is Some,
        0 <= m < record.networks->0@[k]->0@.len(),
    ensures
        record.hosts().contains(record.networks->0@[k]->0@[m]@),
{
    let n = record.networks->0@;
    let name = n[k]->0@[m]@;
    lemma_network_names_contains(n, k, m);
    let dns = network_names(n);
    let i = choose|i: int| 0 <= i < dns.len() && dns[i] == name;
    match (match record.config {
        Some(c) => service_of(c.labels),
        None => None,
    }) {
        Some(s) => {
            if !dns.contains(s) {
                assert((seq![s] + dns)[i + 1] == name);
            }
        },
        None => {},
    }
}

/// Every DNS name of every network of a summarized container is among its
/// hosts, whatever its labels.
pub proof fn lemma_summary_hosts_keep_dns_names(summary: ContainerSummaryRecord, k: int, m: int)
    requires
        0 <= k < summary.networks@.len(),
        summary.networks@[k] is Some,
        0 <= m < summary.networks@[k]->0@.len(),
    ensures
        summary.hosts().contains(summary.networks@[k]->0@[m]@),
{
    let n = summary.networks@;
    let name = n[k]->0@[m]@;
    lemma_network_names_contains(n, k, m);
    let dns = network_names(n);
    let i = choose|i: int| 0 <= i < dns.len() && dns[i] == name;
    match service_of(summary.labels) {
        Some(s) => {
            if !dns.contains(s) {
                assert((seq![s] + dns)[i + 1] == name);
            }
        },
        None => {},
    }
}

/// The hosts of an inspected container are the DNS names of its networks in
/// order, with its compose service put in front only where it is not among
/// them already.
pub proof fn lemma_inspect_hosts_service(record: ContainerInspectRecord)
    ensures
        ({
            let dns = match record.networks {
                Some(n) => network_names(n@),
                None => Seq::<Seq<char>>::empty(),
            };
            let service = match record.config {
                Some(c) => service_of(c.labels),
                None => None,
            };
            match service {
                Some(s) => record.hosts().contains(s) && if dns.contains(s) {
                    record.hosts() == dns
                } else {
                    record.hosts()[0] == s && record.hosts().drop_first() == dns
                },
                None => record.hosts() == dns,
            }
        }),
{
    let dns = match record.networks {
        Some(n) => network_names(n@),
        None => Seq::<Seq<char>>::empty(),
    };
    let service = match record.config {
        Some(c) => service_of(c.labels),
        None => None,
    };
    if let Some(s) = service {
        lemma_service_leads_hosts(dns, s);
    }
}

/// The hosts of a summarized container are the DNS names of its networks in
/// order, with its compose service put in front only where it is not among
/// them already.
pub proof fn lemma_summary_hosts_service(summary: ContainerSummaryRecord)
    ensures
        ({
            let dns = network_names(summary.networks@);
            match service_of(summary.labels) {
                Some(s) => summary.hosts().contains(s) && if dns.contains(s) {
                    summary.hosts() == dns
                } else {
                    summary.hosts()[0] == s && summary.hosts().drop_first() == dns
                },
                None => summary.hosts() == dns,
            }
        }),
{
    if let Some(s) = service_of(summary.labels) {
        lemma_service_leads_hosts(network_names(summary.networks@), s);
    }
}

/// The mappings of port map entries listed one after the other are those of
/// each, one after the other.
pub proof fn lemma_map_ports_concat(a: Seq<PortMapEntry>, b: Seq<PortMapEntry>)
    ensures
        map_ports(a + b) == map_ports(a) + map_ports(b),
    decreases b.len(),
{
    if b.len() == 0 {
        assert(a + b =~= a);
        assert(map_ports(a) + map_ports(b) =~= map_ports(a));
    } else {
        lemma_map_ports_concat(a, b.drop_last());
        assert((a + b).drop_last() =~= a + b.drop_last());
        assert((a + b).last() == b.last());
        assert(map_ports(a + b) =~= map_ports(a) + map_ports(b.drop_last()) + entry_ports(
            b.last(),
        ));
    }
}

/// One port map entry gives one mapping per binding, in order, each with the
/// entry's container port and protocol.
pub proof fn lemma_map_ports_single(e: PortMapEntry, k: int)
    ensures
        e.1 is None ==> map_ports(seq![e]).len() == 0,
        e.1 matches Some(bindings) ==> map_ports(seq![e]).len() == bindings@.len(),
        e.1 is Some && 0 <= k < e.1->0@.len() ==> map_ports(seq![e])[k] == binding_port(
            port_key(e.0@),
            e.1->0@[k],
        ),
{
    assert(seq![e].drop_last() =~= Seq::<PortMapEntry>::empty());
    assert(seq![e].last() == e);
    assert(map_ports(Seq::<PortMapEntry>::empty()) =~= Seq::<PortView>::empty());
    assert(Seq::<PortView>::empty() + entry_ports(e) =~= entry_ports(e));
    assert(map_ports(seq![e]) =~= entry_ports(e));
}

} // verus!
