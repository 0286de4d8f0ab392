//! What the library asks the Docker daemon: label filters, and the search for
//! a workspace's containers that tries one filter after another.

use vstd::prelude::*;
use crate::container::Container;
use crate::text::{strs, lemma_strs_push};

verus! {

/// A single key/value label filter for Docker container queries.
pub struct ContainerFilter {
    /// Label key to filter on.
    pub name: String,
    /// Expected label value.
    pub value: String,
}

impl View for ContainerFilter {
    type V = (Seq<char>, Seq<char>);

    open spec fn view(&self) -> (Seq<char>, Seq<char>) {
        (self.name@, self.value@)
    }
}

/// The text of a filter: `NAME=VALUE`.
pub open spec fn filter_text(f: (Seq<char>, Seq<char>)) -> Seq<char> {
    f.0 + "="@ + f.1
}

/// The views of a list of filters.
pub open spec fn filter_views(filters: Seq<ContainerFilter>) -> Seq<(Seq<char>, Seq<char>)> {
    filters.map_values(|f: ContainerFilter| f@)
}

impl ContainerFilter {
    /// Renders the filter as `NAME=VALUE`.
    pub fn to_string(&self) -> (r: String)
        ensures
            r@ == filter_text(self@),
    {
        let mut out = self.name.clone();
        out.append("=");
        out.append(self.value.as_str());
        out
    }
}

fn label_texts(filters: &Vec<ContainerFilter>) -> (r: Vec<String>)
    ensures
        strs(r@) == filter_views(filters@).map_values(|f: (Seq<char>, Seq<char>)| filter_text(f)),
{
    let ghost all = filter_views(filters@).map_values(|f: (Seq<char>, Seq<char>)| filter_text(f));
    let mut out: Vec<String> = Vec::new();
    let mut i: usize = 0;
    while i < filters.len()
        invariant
            i <= filters.len(),
            all == filter_views(filters@).map_values(|f: (Seq<char>, Seq<char>)| filter_text(f)),
            strs(out@) =~= all.take(i as int),
        decreases filters.len() - i,
    {
        let text = filters[i].to_string();
        proof {
            lemma_strs_push(out@, text);
            assert(all.take(i + 1) =~= all.take(i as int).push(all[i as int]));
        }
        out.push(text);
        i = i + 1;
    }
    assert(all.take(i as int) =~= all);
    out
}

/// A collection of filters that a container listing applies as label
/// filters.
pub struct ListContainersFilter(pub Vec<ContainerFilter>);

impl ListContainersFilter {
    /// The label filter values, `NAME=VALUE` each, in order.
    pub fn labels(&self) -> (r: Vec<String>)
        ensures
            strs(r@) == filter_views(self.0@).map_values(
                |f: (Seq<char>, Seq<char>)| filter_text(f),
            ),
    {
        label_texts(&self.0)
    }
}

/// A collection of filters, as the listing of a workspace's containers
/// takes them.
pub struct ContainerFilters(pub Vec<ContainerFilter>);

impl ContainerFilters {
    /// The label filter values, `NAME=VALUE` each, in order.
    pub fn labels(&self) -> (r: Vec<String>)
        ensures
            strs(r@) == filter_views(self.0@).map_values(
                |f: (Seq<char>, Seq<char>)| filter_text(f),
            ),
    {
        label_texts(&self.0)
    }
}

/// Parameters for resolving a workspace.
pub struct GetWorkspaceParam {
    /// Path to the devcontainer.json configuration file.
    pub config: String,
    /// Path to the workspace root folder.
    pub folder: String,
}

/// Where the configuration file lies, as a Unix path: a configuration path
/// that is not absolute (does not start with `/`) is taken relative to the
/// workspace folder and appended to it after a `/` (none is added when the
/// folder is empty or already ends with one); an absolute one stands as it
/// is. This is what `Path::join` gives on Unix.
pub open spec fn config_path(folder: Seq<char>, config: Seq<char>) -> Seq<char> {
    if config.len() > 0 && config[0] == '/' {
        config
    } else if folder.len() > 0 && folder.last() != '/' {
        folder + seq!['/'] + config
    } else {
        folder + config
    }
}

/// Resolves the configuration path against the workspace folder.
pub fn config_location(folder: &str, config: &str) -> (r: String)
    ensures
        r@ == config_path(folder@, config@),
{
    if config.unicode_len() > 0 && config.get_char(0) == '/' {
        return String::from_str(config);
    }
    let mut out = String::from_str(folder);
    let n = folder.unicode_len();
    if n > 0 && folder.get_char(n - 1) != '/' {
        crate::text::push_char(&mut out, '/');
    }
    out.append(config);
    out
}

/// The label that Docker Compose gives the directory of a project.
pub open spec fn working_dir_label() -> Seq<char> {
    "com.docker.compose.project.working_dir"@
}

/// The label that the devcontainer CLI gives the local workspace folder.
pub open spec fn local_folder_label() -> Seq<char> {
    "devcontainer.local_folder"@
}

/// The filters that find a workspace's containers, in the order they are
/// tried: the compose project in the configuration's directory, then the
/// devcontainer of the workspace folder.
pub open spec fn workspace_filter_views(config_dir: Seq<char>, folder: Seq<char>) -> Seq<
    (Seq<char>, Seq<char>),
> {
    seq![(working_dir_label(), config_dir), (local_folder_label(), folder)]
}

/// The filters that find a workspace's containers, in the order they are
/// tried.
pub fn workspace_filters(config_dir: String, folder: String) -> (r: Vec<ContainerFilter>)
    ensures
        filter_views(r@) == workspace_filter_views(config_dir@, folder@),
{
    let mut filters: Vec<ContainerFilter> = Vec::new();
    filters.push(
        ContainerFilter {
            name: String::from_str("com.docker.compose.project.working_dir"),
            value: config_dir,
        },
    );
    filters.push(
        ContainerFilter { name: String::from_str("devcontainer.local_folder"), value: folder },
    );
    assert(filter_views(filters@) =~= workspace_filter_views(config_dir@, folder@));
    filters
}

/// The search for a workspace's containers: the filters are tried in order,
/// and the search stops at the first filter that finds any container.
pub struct ContainerSearch {
    filters: Vec<ContainerFilter>,
    next: usize,
    found: Vec<Container>,
}

impl ContainerSearch {
    #[verifier::type_invariant]
    spec fn next_in_range(self) -> bool {
        self.next <= self.filters.len()
    }

    /// The filters not tried yet.
    pub closed spec fn pending(&self) -> Seq<(Seq<char>, Seq<char>)> {
        filter_views(self.filters@).skip(self.next as int)
    }

    /// The containers found so far.
    pub closed spec fn found(&self) -> Seq<Container> {
        self.found@
    }

    /// Starts the search for the workspace whose configuration lies in
    /// `config_dir` and whose folder is `folder`.
    pub fn new(config_dir: String, folder: String) -> (r: Self)
        ensures
            r.pending() == workspace_filter_views(config_dir@, folder@),
            r.found() == Seq::<Container>::empty(),
    {
        let filters = workspace_filters(config_dir, folder);
        let r = ContainerSearch { filters, next: 0, found: Vec::new() };
        assert(filter_views(r.filters@).skip(0) =~= filter_views(r.filters@));
        r
    }

    /// The next query to run: the next filter, as long as nothing was found
    /// yet and a filter is left; `None` ends the search.
    pub fn next_query(&mut self) -> (r: Option<ListContainersFilter>)
        ensures
            old(self).found().len() == 0 && old(self).pending().len() > 0 ==> {
                &&& r matches Some(q) && filter_views(q.0@) == seq![old(self).pending()[0]]
                &&& final(self).pending() == old(self).pending().drop_first()
                &&& final(self).found() == old(self).found()
            },
            !(old(self).found().len() == 0 && old(self).pending().len() > 0) ==> {
                &&& r is None
                &&& final(self).pending() == old(self).pending()
                &&& final(self).found() == old(self).found()
            },
    {
        proof {
            use_type_invariant(&*self);
        }
        if self.found.len() == 0 && self.next < self.filters.len() {
            let filter = ContainerFilter {
                name: self.filters[self.next].name.clone(),
                value: self.filters[self.next].value.clone(),
            };
            let ghost views = filter_views(self.filters@);
            assert(views.skip(self.next as int)[0] == views[self.next as int]);
            assert(views.skip(self.next as int).drop_first() =~= views.skip(self.next + 1));
            self.next = self.next + 1;
            let mut query: Vec<ContainerFilter> = Vec::new();
            query.push(filter);
            assert(filter_views(query@) =~= seq![filter@]);
            Some(ListContainersFilter(query))
        } else {
            None
        }
    }

    /// The search after recording a container that the current query found.
    pub fn record(self, container: Container) -> (r: Self)
        ensures
            r.found() == self.found().push(container),
            r.pending() == self.pending(),
    {
        proof {
            use_type_invariant(&self);
        }
        let ContainerSearch { filters, next, found } = self;
        let mut found = found;
        found.push(container);
        ContainerSearch { filters, next, found }
    }

    /// The containers that the search found.
    pub fn into_containers(self) -> (r: Vec<Container>)
        ensures
            r@ == self.found(),
    {
        self.found
    }
}

} // verus!
